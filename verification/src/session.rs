//! One run: the monitor's reading and the user's request decide what is
//! written to the monitor and what is reported.
//!
//! The reading is taken once. Without a request nothing is written and the
//! reading itself is reported. With a request the new value is computed from
//! the reading, written, and reported in place of the old one; the monitor is
//! not asked again.

use vstd::prelude::*;
use crate::adjust::{compute_new_value, new_value_of, VcpReading};
use crate::number::ParseError;
use crate::path::{
    final_component, lemma_final_component_is_a_name, lemma_final_component_of_plain_name,
};
use crate::report::Report;

verus! {

/// The directory of the device nodes.
pub const DEVICE_DIR: &'static str = "/dev";

/// What a run does once the reading is known.
#[derive(Debug, Clone, Copy, PartialEq, Eq, Structural)]
pub struct Plan {
    /// The value to write to the monitor, if any is to be written.
    pub write: Option<u16>,
    /// What to report afterwards.
    pub report: Report,
}

/// What to do with `reading` when the user asks for `request`.
pub open spec fn plan_of(reading: VcpReading, request: Option<Seq<char>>) -> Result<
    Plan,
    ParseError,
> {
    match request {
        None => Ok(
            Plan {
                write: None,
                report: Report { value: reading.current, maximum: reading.maximum },
            },
        ),
        Some(text) => match new_value_of(reading.current, reading.maximum, text) {
            Ok(value) => Ok(
                Plan { write: Some(value), report: Report { value, maximum: reading.maximum } },
            ),
            Err(e) => Err(e),
        },
    }
}

/// The text of a request, if there is one.
pub open spec fn text_of(request: Option<&str>) -> Option<Seq<char>> {
    match request {
        Some(text) => Some(text@),
        None => None,
    }
}

/// Decides what to write and what to report. A request that cannot be read
/// is an error, and then nothing is to be written.
pub fn plan(reading: VcpReading, request: Option<&str>) -> (planned: Result<Plan, ParseError>)
    ensures
        planned == plan_of(reading, text_of(request)),
        request is None ==> planned == Ok::<Plan, ParseError>(
            (Plan {
                write: None,
                report: (Report { value: reading.current, maximum: reading.maximum }),
            }),
        ),
        planned matches Ok(p) ==> p.report.maximum == reading.maximum && (p.write matches Some(
            value,
        ) ==> p.report.value == value),
        reading.is_consistent() ==> (planned matches Ok(p) ==> p.report.value
            <= p.report.maximum),
{
    match request {
        None => Ok(
            Plan {
                write: None,
                report: Report { value: reading.current, maximum: reading.maximum },
            },
        ),
        Some(text) => match compute_new_value(reading.current, reading.maximum, text) {
            Ok(value) => Ok(
                Plan { write: Some(value), report: Report { value, maximum: reading.maximum } },
            ),
            Err(e) => Err(e),
        },
    }
}

/// The device node of the I2C bus `device`.
pub open spec fn device_path_of(device: Seq<char>) -> Seq<char> {
    DEVICE_DIR@ + "/"@ + device
}

/// Names the device node of the I2C bus `device`.
pub fn device_path(device: &str) -> (path: String)
    ensures
        path@ == device_path_of(device@),
{
    let mut path = DEVICE_DIR.to_owned();
    path.append("/");
    path.append(device);
    path
}

/// A device that was read off a link lies in the device directory itself:
/// the final component of its device node is the device again, whatever the
/// link pointed at.
pub proof fn lemma_device_node_of_a_link(target: Seq<char>)
    ensures
        final_component(target) matches Some(device) ==> final_component(device_path_of(device))
            == Some(device),
{
    reveal_strlit("/");
    lemma_final_component_is_a_name(target);
    if final_component(target) is Some {
        let device = final_component(target)->Some_0;
        lemma_final_component_of_plain_name(DEVICE_DIR@, device);
        assert("/"@ =~= seq!['/']);
    }
}

} // verus!
