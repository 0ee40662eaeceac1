//! The report: the value, what share of the maximum it is, and the maximum,
//! as one line of JSON such as `{"value":50, "percentage":50, "max":100}`.

use vstd::prelude::*;
use crate::number::{decimal, to_decimal};

verus! {

/// The directory that holds the last report of each output.
pub const SNAPSHOT_DIR: &'static str = "/tmp/backlight";

/// The share of the maximum that a value is.
#[derive(Debug, Clone, Copy, PartialEq, Eq, Structural)]
pub enum Percentage {
    /// So many hundredths, rounded.
    Whole(u32),
    /// A value above a maximum of zero: the share has no bound.
    Infinite,
    /// A value of zero of a maximum of zero: there is no share to speak of.
    Undefined,
}

/// What is reported of a feature: its value and the largest value it takes.
#[derive(Debug, Clone, Copy, PartialEq, Eq, Structural)]
pub struct Report {
    pub value: u16,
    pub maximum: u16,
}

/// The whole number nearest to `num / den`. Of two that are equally near, the
/// even one.
pub open spec fn rounded_ratio(num: int, den: int) -> int
    recommends
        num >= 0,
        den > 0,
{
    let floor = num / den;
    let rest = num % den;
    if 2 * rest < den {
        floor
    } else if 2 * rest > den {
        floor + 1
    } else if floor % 2 == 0 {
        floor
    } else {
        floor + 1
    }
}

/// The share of `maximum` that `value` is, in hundredths.
pub open spec fn percentage_of(value: u16, maximum: u16) -> Percentage {
    if maximum > 0 {
        Percentage::Whole(rounded_ratio(100 * value, maximum as int) as u32)
    } else if value > 0 {
        Percentage::Infinite
    } else {
        Percentage::Undefined
    }
}

/// How a percentage is written in the report.
pub open spec fn percentage_text(percentage: Percentage) -> Seq<char> {
    match percentage {
        Percentage::Whole(n) => decimal(n as nat),
        Percentage::Infinite => "inf"@,
        Percentage::Undefined => "NaN"@,
    }
}

/// The line that reports `value` of `maximum`.
pub open spec fn report_line(value: u16, maximum: u16) -> Seq<char> {
    "{\"value\":"@ + decimal(value as nat) + ", \"percentage\":"@ + percentage_text(
        percentage_of(value, maximum),
    ) + ", \"max\":"@ + decimal(maximum as nat) + "}"@
}

/// A rounded ratio is the nearest whole number: it misses the ratio by half at
/// most, and where it misses by exactly half it is even.
pub proof fn lemma_rounded_ratio_is_nearest(num: int, den: int)
    requires
        num >= 0,
        den > 0,
    ensures
        ({
            let rounded = rounded_ratio(num, den);
            &&& rounded >= 0
            &&& -den <= 2 * (rounded * den - num) <= den
            &&& (2 * (rounded * den - num) == den || 2 * (rounded * den - num) == -den)
                ==> rounded % 2 == 0
        }),
{
    let floor = num / den;
    let rest = num % den;
    assert(num == floor * den + rest && 0 <= rest < den && floor >= 0) by (nonlinear_arith)
        requires
            num >= 0,
            den > 0,
            floor == num / den,
            rest == num % den,
    ;
    assert((floor + 1) * den == floor * den + den) by (nonlinear_arith);
}

/// No whole number is nearer to the ratio than the rounded one.
pub proof fn lemma_none_is_nearer(num: int, den: int, other: int)
    requires
        num >= 0,
        den > 0,
    ensures
        ({
            let rounded = rounded_ratio(num, den);
            let miss = if rounded * den >= num {
                rounded * den - num
            } else {
                num - rounded * den
            };
            let other_miss = if other * den >= num {
                other * den - num
            } else {
                num - other * den
            };
            miss <= other_miss
        }),
{
    let rounded = rounded_ratio(num, den);
    lemma_rounded_ratio_is_nearest(num, den);
    if other > rounded {
        assert(other * den >= rounded * den + den) by (nonlinear_arith)
            requires
                other >= rounded + 1,
                den > 0,
        ;
    } else if other < rounded {
        assert(other * den <= rounded * den - den) by (nonlinear_arith)
            requires
                other <= rounded - 1,
                den > 0,
        ;
    }
}

/// A value within its maximum is at most a hundred hundredths of it: a
/// hundred where it is the maximum, none where it is zero.
pub proof fn lemma_percentage_within_hundred(value: u16, maximum: u16)
    requires
        value <= maximum,
        maximum > 0,
    ensures
        percentage_of(value, maximum) matches Percentage::Whole(n) && n <= 100,
        value == maximum ==> percentage_of(value, maximum) == Percentage::Whole(100),
        value == 0 ==> percentage_of(value, maximum) == Percentage::Whole(0),
{
    let num = 100 * value;
    let den = maximum as int;
    let floor = num / den;
    let rest = num % den;
    assert(num == floor * den + rest && 0 <= rest < den && floor >= 0) by (nonlinear_arith)
        requires
            num >= 0,
            den > 0,
            floor == num / den,
            rest == num % den,
    ;
    assert(floor <= 100 && (floor == 100 ==> rest == 0)) by (nonlinear_arith)
        requires
            num == floor * den + rest,
            0 <= rest,
            num <= 100 * den,
            den > 0,
    ;
    if value == maximum {
        assert(floor == 100) by (nonlinear_arith)
            requires
                num == floor * den + rest,
                0 <= rest < den,
                num == 100 * den,
                den > 0,
        ;
    }
    if value == 0 {
        assert(floor == 0 && rest == 0) by (nonlinear_arith)
            requires
                0 == floor * den + rest,
                0 <= rest < den,
                floor >= 0,
                den > 0,
        ;
    }
}

impl Report {
    /// Computes the share of the maximum that the value is.
    pub fn percentage(&self) -> (percentage: Percentage)
        ensures
            percentage == percentage_of(self.value, self.maximum),
    {
        if self.maximum == 0 {
            if self.value > 0 {
                Percentage::Infinite
            } else {
                Percentage::Undefined
            }
        } else {
            let num: u32 = 100 * (self.value as u32);
            let den: u32 = self.maximum as u32;
            let floor: u32 = num / den;
            let rest: u32 = num % den;
            assert(floor <= num) by (nonlinear_arith)
                requires
                    floor == num as int / den as int,
                    den >= 1,
                    num >= 0,
            ;
            let up = if 2 * rest < den {
                false
            } else if 2 * rest > den {
                true
            } else {
                floor % 2 != 0
            };
            if up {
                Percentage::Whole(floor + 1)
            } else {
                Percentage::Whole(floor)
            }
        }
    }

    /// Writes the report as one line of JSON.
    pub fn to_json(&self) -> (line: String)
        ensures
            line@ == report_line(self.value, self.maximum),
    {
        let mut line = "{\"value\":".to_owned();
        let value = to_decimal(self.value as u32);
        line.append(value.as_str());
        line.append(", \"percentage\":");
        match self.percentage() {
            Percentage::Whole(n) => {
                let share = to_decimal(n);
                line.append(share.as_str());
            },
            Percentage::Infinite => {
                line.append("inf");
            },
            Percentage::Undefined => {
                line.append("NaN");
            },
        }
        line.append(", \"max\":");
        let maximum = to_decimal(self.maximum as u32);
        line.append(maximum.as_str());
        line.append("}");
        line
    }
}

/// Where the report of `output` is kept.
pub open spec fn snapshot_path_of(output: Seq<char>) -> Seq<char> {
    SNAPSHOT_DIR@ + "/"@ + output + ".json"@
}

/// Names the file that keeps the report of `output`.
pub fn snapshot_path(output: &str) -> (path: String)
    ensures
        path@ == snapshot_path_of(output@),
{
    let mut path = SNAPSHOT_DIR.to_owned();
    path.append("/");
    path.append(output);
    path.append(".json");
    path
}

} // verus!
