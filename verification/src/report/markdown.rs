//! The Markdown report: a heading, then the outcome's message.
use vstd::prelude::*;

use crate::commands::CommandOutcome;
use crate::util::concat2;

verus! {

pub fn render(outcome: &CommandOutcome) -> (r: String)
    ensures
        r@ == "# EnvSentinel\n\n"@ + outcome.message@,
{
    concat2("# EnvSentinel\n\n", outcome.message.as_str())
}

} // verus!
