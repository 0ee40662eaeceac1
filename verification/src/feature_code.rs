//! Feature codes: the number of a monitor setting, such as 16 for brightness.
//!
//! A code is one byte. It is written in decimal, or in hexadecimal either with
//! `0x` in front or with `h` or `H` behind: `16`, `0x10` and `10h` are the same
//! code.

use vstd::prelude::*;
use vstd::slice::slice_subrange;
use crate::number::{
    decimal, lemma_decimal_is_digits, lemma_decimal_reads_back, number_of, parse_number,
    ParseError,
};
use crate::text::chars_of;

verus! {

/// Whether `input` carries the prefix of a hexadecimal code.
pub open spec fn has_hex_prefix(input: Seq<char>) -> bool {
    input.len() >= 2 && input[0] == '0' && input[1] == 'x'
}

/// Whether `input` carries the suffix of a hexadecimal code.
pub open spec fn has_hex_suffix(input: Seq<char>) -> bool {
    input.len() >= 1 && (input.last() == 'h' || input.last() == 'H')
}

/// The number that `input` writes in one of the three notations, up to 255.
/// The prefix is looked for first: a text with both prefix and suffix is read
/// as hexadecimal digits that end in `h`, which is no digit.
pub open spec fn code_number(input: Seq<char>) -> Result<int, ParseError> {
    if has_hex_prefix(input) {
        number_of(input.skip(2), 16, 255)
    } else if has_hex_suffix(input) {
        number_of(input.drop_last(), 16, 255)
    } else {
        number_of(input, 10, 255)
    }
}

/// The feature code that `input` writes.
pub open spec fn feature_code_of(input: Seq<char>) -> Result<u8, ParseError> {
    match code_number(input) {
        Ok(n) => Ok(n as u8),
        Err(e) => Err(e),
    }
}

/// Reads a feature code.
pub fn parse_feature_code(input: &str) -> (code: Result<u8, ParseError>)
    ensures
        code == feature_code_of(input@),
{
    let chars = chars_of(input);
    let text = chars.as_slice();
    let len = text.len();
    let number = if len >= 2 && text[0] == '0' && text[1] == 'x' {
        let digits = slice_subrange(text, 2, len);
        parse_number(digits, 16, 255)
    } else if len >= 1 && (text[len - 1] == 'h' || text[len - 1] == 'H') {
        let digits = slice_subrange(text, 0, len - 1);
        parse_number(digits, 16, 255)
    } else {
        parse_number(text, 10, 255)
    };
    match number {
        Ok(n) => Ok(n as u8),
        Err(e) => Err(e),
    }
}

/// The two hexadecimal notations agree: digits with `0x` in front and the same
/// digits with `h` or `H` behind are the same code, or fail alike. Digits that
/// themselves begin with `0x` are left out: behind them the suffix is not
/// looked at.
pub proof fn lemma_hex_notations_agree(digits: Seq<char>)
    requires
        !has_hex_prefix(digits),
    ensures
        feature_code_of(seq!['0', 'x'] + digits) == feature_code_of(digits.push('h')),
        feature_code_of(seq!['0', 'x'] + digits) == feature_code_of(digits.push('H')),
        code_number(seq!['0', 'x'] + digits) == number_of(digits, 16, 255),
{
    let prefixed = seq!['0', 'x'] + digits;
    assert(prefixed.skip(2) =~= digits);
    assert(digits.push('h').drop_last() =~= digits);
    assert(digits.push('H').drop_last() =~= digits);
}

/// A code written in decimal is read back as itself, and a number that is
/// no code, because it does not fit into a byte, is refused as too large.
pub proof fn lemma_decimal_code_reads_back(n: nat)
    ensures
        n <= 255 ==> feature_code_of(decimal(n)) == Ok::<u8, ParseError>(n as u8),
        n > 255 ==> feature_code_of(decimal(n)) == Err::<u8, ParseError>(ParseError::Overflow),
{
    lemma_decimal_reads_back(n, 255);
    lemma_decimal_is_digits(n);
}

} // verus!
