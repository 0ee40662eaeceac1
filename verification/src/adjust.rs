//! Feature values: what the user asks for and what is then written.
//!
//! A request is a decimal number, or a decimal number followed by `+` or `-`.
//! A bare number is the value to set. With a sign behind it the number is a
//! step from the current value, up or down. Whatever is asked, the value that
//! is written lies between zero and the maximum the monitor reports.

use vstd::prelude::*;
use vstd::slice::slice_subrange;
use crate::number::{
    decimal, lemma_decimal_is_digits, lemma_decimal_reads_back, number_of, parse_number,
    ParseError,
};
use crate::text::chars_of;

verus! {

/// What a monitor reports of a feature: its value now and the largest value it
/// takes.
#[derive(Debug, Clone, Copy, PartialEq, Eq, Structural)]
pub struct VcpReading {
    pub current: u16,
    pub maximum: u16,
}

impl VcpReading {
    /// Whether the value lies within the maximum, as a monitor should report.
    pub open spec fn is_consistent(&self) -> bool {
        self.current <= self.maximum
    }
}

/// What the user asks the value to become.
#[derive(Debug, Clone, Copy, PartialEq, Eq, Structural)]
pub enum FeatureValueSpec {
    /// This value.
    Absolute(u16),
    /// The current value and this much more.
    Increase(u16),
    /// The current value and this much less.
    Decrease(u16),
}

/// Whether `c` is one of the two signs that mark a step.
pub open spec fn is_sign(c: char) -> bool {
    c == '+' || c == '-'
}

/// `text` without the signs at its end.
pub open spec fn strip_signs(text: Seq<char>) -> Seq<char>
    decreases text.len(),
{
    if text.len() > 0 && is_sign(text.last()) {
        strip_signs(text.drop_last())
    } else {
        text
    }
}

/// The request that `text` writes. The last character decides between a step
/// and a value; of a step, every sign at the end is set aside before the
/// number is read.
pub open spec fn value_spec_of(text: Seq<char>) -> Result<FeatureValueSpec, ParseError> {
    if text.len() > 0 && is_sign(text.last()) {
        match number_of(strip_signs(text), 10, 0xFFFF) {
            Ok(step) => if text.last() == '-' {
                Ok(FeatureValueSpec::Decrease(step as u16))
            } else {
                Ok(FeatureValueSpec::Increase(step as u16))
            },
            Err(e) => Err(e),
        }
    } else {
        match number_of(text, 10, 0xFFFF) {
            Ok(value) => Ok(FeatureValueSpec::Absolute(value as u16)),
            Err(e) => Err(e),
        }
    }
}

impl FeatureValueSpec {
    /// The value to write when the monitor reports `current` and `maximum`.
    pub open spec fn applied(self, current: u16, maximum: u16) -> int {
        match self {
            FeatureValueSpec::Absolute(value) => vstd::math::min(value as int, maximum as int),
            FeatureValueSpec::Increase(step) => vstd::math::min(maximum as int, current + step),
            FeatureValueSpec::Decrease(step) => vstd::math::max(0, current - step),
        }
    }

    /// Computes the value to write. A step down stops at zero; a step up and a
    /// value stop at the maximum. Where the current value lies within the
    /// maximum, so does the new one.
    pub fn apply(&self, current: u16, maximum: u16) -> (new: u16)
        ensures
            new == self.applied(current, maximum),
            *self matches FeatureValueSpec::Decrease(step) ==> new == vstd::math::max(
                0,
                current - step,
            ),
            *self matches FeatureValueSpec::Increase(step) ==> new == vstd::math::min(
                maximum as int,
                current + step,
            ),
            *self matches FeatureValueSpec::Absolute(value) ==> new == vstd::math::min(
                value as int,
                maximum as int,
            ),
            current <= maximum ==> new <= maximum,
    {
        match *self {
            FeatureValueSpec::Absolute(value) => if value > maximum {
                maximum
            } else {
                value
            },
            FeatureValueSpec::Increase(step) => {
                let sum: u32 = current as u32 + step as u32;
                if sum > maximum as u32 {
                    maximum
                } else {
                    sum as u16
                }
            },
            FeatureValueSpec::Decrease(step) => if step > current {
                0
            } else {
                current - step
            },
        }
    }
}

/// Reads a request.
pub fn parse_value_spec(text: &str) -> (spec: Result<FeatureValueSpec, ParseError>)
    ensures
        spec == value_spec_of(text@),
{
    let chars = chars_of(text);
    let all = chars.as_slice();
    let len = all.len();
    if len > 0 && (all[len - 1] == '+' || all[len - 1] == '-') {
        let mut end: usize = len;
        assert(all@.take(end as int) =~= all@);
        while end > 0 && (all[end - 1] == '+' || all[end - 1] == '-')
            invariant
                end <= all@.len(),
                strip_signs(all@) == strip_signs(all@.take(end as int)),
            decreases end,
        {
            assert(all@.take(end as int).drop_last() =~= all@.take(end - 1));
            end -= 1;
        }
        let digits = slice_subrange(all, 0, end);
        match parse_number(digits, 10, 0xFFFF) {
            Ok(step) => if all[len - 1] == '-' {
                Ok(FeatureValueSpec::Decrease(step as u16))
            } else {
                Ok(FeatureValueSpec::Increase(step as u16))
            },
            Err(e) => Err(e),
        }
    } else {
        match parse_number(all, 10, 0xFFFF) {
            Ok(value) => Ok(FeatureValueSpec::Absolute(value as u16)),
            Err(e) => Err(e),
        }
    }
}

/// The value to write for the request `text`, when the monitor reports
/// `current` and `maximum`.
pub open spec fn new_value_of(current: u16, maximum: u16, text: Seq<char>) -> Result<
    u16,
    ParseError,
> {
    match value_spec_of(text) {
        Ok(spec) => Ok(spec.applied(current, maximum) as u16),
        Err(e) => Err(e),
    }
}

/// Computes the value to write for the request `spec`.
pub fn compute_new_value(current: u16, maximum: u16, spec: &str) -> (new: Result<u16, ParseError>)
    ensures
        new == new_value_of(current, maximum, spec@),
        current <= maximum ==> (new matches Ok(value) ==> value <= maximum),
{
    match parse_value_spec(spec) {
        Ok(request) => Ok(request.apply(current, maximum)),
        Err(e) => Err(e),
    }
}

/// How a request is written: the decimal digits of its number, and behind
/// them `+` for a step up or `-` for a step down.
pub open spec fn written(spec: FeatureValueSpec) -> Seq<char> {
    match spec {
        FeatureValueSpec::Absolute(value) => decimal(value as nat),
        FeatureValueSpec::Increase(step) => decimal(step as nat).push('+'),
        FeatureValueSpec::Decrease(step) => decimal(step as nat).push('-'),
    }
}

/// A request that is written down is read back as itself.
pub proof fn lemma_request_reads_back(spec: FeatureValueSpec)
    ensures
        value_spec_of(written(spec)) == Ok::<FeatureValueSpec, ParseError>(spec),
{
    let n: nat = match spec {
        FeatureValueSpec::Absolute(value) => value as nat,
        FeatureValueSpec::Increase(step) => step as nat,
        FeatureValueSpec::Decrease(step) => step as nat,
    };
    let digits = decimal(n);
    lemma_decimal_is_digits(n);
    lemma_decimal_reads_back(n, 0xFFFF);
    assert(strip_signs(digits) == digits);
    assert(digits.push('+').drop_last() =~= digits);
    assert(digits.push('-').drop_last() =~= digits);
}

/// A step down gives the difference, and zero where the step is larger than
/// the current value.
pub proof fn lemma_step_down_stops_at_zero(current: u16, maximum: u16, step: u16)
    ensures
        new_value_of(current, maximum, decimal(step as nat).push('-')) matches Ok(new) && new
            == vstd::math::max(0, current - step),
{
    lemma_request_reads_back(FeatureValueSpec::Decrease(step));
}

/// A step up gives the sum, and the maximum where the sum is larger.
pub proof fn lemma_step_up_stops_at_maximum(current: u16, maximum: u16, step: u16)
    ensures
        new_value_of(current, maximum, decimal(step as nat).push('+')) matches Ok(new) && new
            == vstd::math::min(maximum as int, current + step),
{
    lemma_request_reads_back(FeatureValueSpec::Increase(step));
}

/// A value gives itself, and the maximum where it is larger.
pub proof fn lemma_value_stops_at_maximum(current: u16, maximum: u16, value: u16)
    ensures
        new_value_of(current, maximum, decimal(value as nat)) matches Ok(new) && new
            == vstd::math::min(value as int, maximum as int),
{
    lemma_request_reads_back(FeatureValueSpec::Absolute(value));
}

} // verus!
