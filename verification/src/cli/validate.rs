//! Limits and thresholds that the command line accepts.

use vstd::prelude::*;

use crate::cpu::{CpuPercent, MAX_THRESHOLD_BITS};
use crate::text::{concat, owned};

verus! {

/// The largest limit, in percent of one CPU.
pub const MAX_LIMIT: u16 = 1200;

/// Accepts a limit.
pub fn validate_limit(limit: u16) -> (r: Result<(), String>)
    ensures
        match r {
            Ok(_) => 1 <= limit <= MAX_LIMIT,
            Err(message) => !(1 <= limit <= MAX_LIMIT) && message@
                == "limit must be between 1 and 1200"@,
        },
{
    if limit < 1 || limit > MAX_LIMIT {
        Err(owned("limit must be between 1 and 1200"))
    } else {
        Ok(())
    }
}

/// Whether a load can be a threshold: a number from 0 to 1200.
pub open spec fn is_threshold(value: CpuPercent) -> bool {
    (CpuPercent { bits: 0 }).is_at_most(value) && value.is_at_most(
        CpuPercent { bits: MAX_THRESHOLD_BITS },
    )
}

/// What is told of a threshold that is out of range.
pub open spec fn range_message(name: Seq<char>) -> Seq<char> {
    name + " must be between 0 and 1200"@
}

/// Accepts a threshold.
pub fn validate_cpu_threshold(name: &str, value: CpuPercent) -> (r: Result<(), String>)
    ensures
        match r {
            Ok(_) => is_threshold(value),
            Err(message) => !is_threshold(value) && message@ == range_message(name@),
        },
{
    let zero = CpuPercent { bits: 0 };
    let most = CpuPercent { bits: MAX_THRESHOLD_BITS };
    if zero.at_most(value) && value.at_most(most) {
        Ok(())
    } else {
        Err(concat(name, " must be between 0 and 1200"))
    }
}

/// What is wrong with a pair of thresholds, if anything.
pub open spec fn threshold_fault(trigger_cpu: CpuPercent, release_cpu: CpuPercent) -> Option<
    Seq<char>,
> {
    if !is_threshold(trigger_cpu) {
        Some(range_message("trigger-cpu"@))
    } else if !is_threshold(release_cpu) {
        Some(range_message("release-cpu"@))
    } else if trigger_cpu.is_below(release_cpu) {
        Some("release-cpu must be less than or equal to trigger-cpu"@)
    } else {
        None
    }
}

/// Accepts a pair of thresholds.
pub fn validate_thresholds(trigger_cpu: CpuPercent, release_cpu: CpuPercent) -> (r: Result<
    (),
    String,
>)
    ensures
        match r {
            Ok(_) => threshold_fault(trigger_cpu, release_cpu) is None,
            Err(message) => threshold_fault(trigger_cpu, release_cpu) == Some(message@),
        },
{
    match validate_cpu_threshold("trigger-cpu", trigger_cpu) {
        Err(message) => {
            return Err(message);
        },
        Ok(_) => {},
    }
    match validate_cpu_threshold("release-cpu", release_cpu) {
        Err(message) => {
            return Err(message);
        },
        Ok(_) => {},
    }
    if trigger_cpu.below(release_cpu) {
        Err(owned("release-cpu must be less than or equal to trigger-cpu"))
    } else {
        Ok(())
    }
}

/// Between thresholds that are accepted there is no load at which a limiter would be started and
/// let go at once: a load that is let go is not above the trigger.
pub proof fn accepted_thresholds_leave_a_gap(
    trigger_cpu: CpuPercent,
    release_cpu: CpuPercent,
    load: CpuPercent,
)
    requires
        threshold_fault(trigger_cpu, release_cpu) is None,
        load.is_at_most(release_cpu),
    ensures
        load.is_at_most(trigger_cpu),
{
}

} // verus!
