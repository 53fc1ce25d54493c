//! ISO-8601 durations for schedule requests.

use vstd::prelude::*;
use crate::text::{decimal, push_decimal, push_text, string_of};

verus! {

/// Why a duration cannot be written.
#[derive(Debug, Clone, Copy, PartialEq, Eq)]
pub enum DurationError {
    /// The duration is shorter than one second.
    Empty,
}

impl DurationError {
    /// The message shown to the operator.
    pub fn message(&self) -> (r: String)
        ensures
            r@ == "duration must be at least 1 second"@,
    {
        "duration must be at least 1 second".to_string()
    }
}

/// A count followed by its unit letter, or nothing where the count is zero.
pub open spec fn component(count: nat, unit: char) -> Seq<char> {
    if count > 0 {
        decimal(count).push(unit)
    } else {
        Seq::<char>::empty()
    }
}

/// The ISO-8601 text of a duration of `secs` seconds: `PT`, then hours,
/// minutes and seconds, each left out where it is zero.
pub open spec fn duration_text(secs: nat) -> Seq<char> {
    "PT"@ + component(secs / 3600, 'H') + component((secs % 3600) / 60, 'M') + component(
        secs % 60,
        'S',
    )
}

fn push_component(out: &mut Vec<char>, count: u64, unit: char)
    ensures
        final(out)@ == old(out)@ + component(count as nat, unit),
{
    if count > 0 {
        push_decimal(out, count);
        out.push(unit);
        assert(out@ == old(out)@ + decimal(count as nat).push(unit));
    } else {
        assert(out@ == old(out)@ + Seq::<char>::empty());
    }
}

/// Writes a duration of `secs` whole seconds as ISO-8601 text. A duration of
/// zero is refused.
pub fn format_duration(secs: u64) -> (r: Result<String, DurationError>)
    ensures
        secs == 0 ==> r == Err::<String, DurationError>(DurationError::Empty),
        secs > 0 ==> r is Ok && r->Ok_0@ == duration_text(secs as nat),
{
    if secs == 0 {
        return Err(DurationError::Empty);
    }
    let hours: u64 = secs / 3600;
    let rest: u64 = secs % 3600;
    let minutes: u64 = rest / 60;
    let seconds: u64 = rest % 60;
    assert(seconds == secs % 60) by (nonlinear_arith)
        requires
            seconds == (secs % 3600) % 60,
    ;
    let mut out: Vec<char> = Vec::new();
    push_text(&mut out, "PT");
    push_component(&mut out, hours, 'H');
    push_component(&mut out, minutes, 'M');
    push_component(&mut out, seconds, 'S');
    Ok(string_of(&out))
}

} // verus!
