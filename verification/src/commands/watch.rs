//! `watch`: the scan and validate cycle rerun on a fixed interval; the
//! decisions of the loop, whose waiting and printing the program does.
use vstd::prelude::*;

use super::{CommandContext, CommandOutcome, outcome_for};
use crate::util::{concat3, decimal, push_decimal};

verus! {

/// Seconds between two cycles.
pub const WATCH_INTERVAL_SECS: u64 = 2;

/// The banner printed when watching starts.
pub fn startup_outcome(context: &CommandContext) -> (o: CommandOutcome)
    ensures
        o@ == outcome_for(
            0,
            "Watching "@ + context.root@ + " for env file changes every "@ + decimal(WATCH_INTERVAL_SECS as nat)
                + "s. Press Ctrl+C to stop."@,
        ),
{
    let mut message = concat3("Watching ", context.root.as_str(), " for env file changes every ");
    push_decimal(&mut message, WATCH_INTERVAL_SECS);
    message.append("s. Press Ctrl+C to stop.");
    CommandOutcome::new(0, message)
}

/// The exit code of a cycle: a usage error in either run wins, then findings.
pub open spec fn cycle_code(scan: i32, validate: i32) -> i32 {
    if scan == 2 || validate == 2 {
        2
    } else if scan == 1 || validate == 1 {
        1
    } else {
        0
    }
}

/// One cycle's report: the scan outcome and the validate outcome of the same root.
pub fn build_cycle_outcome(context: &CommandContext, scan: &CommandOutcome, validate: &CommandOutcome) -> (o:
    CommandOutcome)
    ensures
        o@ == outcome_for(
            cycle_code(scan.exit_code, validate.exit_code),
            "Watch cycle for "@ + context.root@ + "\n\n[scan]\n"@ + scan.message@ + "\n\n[validate]\n"@
                + validate.message@,
        ),
        0 <= scan.exit_code <= 2 && 0 <= validate.exit_code <= 2 ==> o.exit_code == if scan.exit_code
            >= validate.exit_code {
            scan.exit_code
        } else {
            validate.exit_code
        },
{
    let exit_code = if scan.exit_code == 2 || validate.exit_code == 2 {
        2
    } else if scan.exit_code == 1 || validate.exit_code == 1 {
        1
    } else {
        0
    };
    let mut message = concat3("Watch cycle for ", context.root.as_str(), "\n\n[scan]\n");
    message.append(scan.message.as_str());
    message.append("\n\n[validate]\n");
    message.append(validate.message.as_str());
    CommandOutcome::new(exit_code, message)
}

/// A cycle is printed only when its report differs from the last one printed.
pub fn should_render(cycle: &CommandOutcome, last_message: &String) -> (b: bool)
    ensures
        b == (cycle.message@ != last_message@),
{
    cycle.message != *last_message
}

} // verus!
