//! The plain-text report: the outcome's message.
use vstd::prelude::*;

use crate::commands::CommandOutcome;

verus! {

pub fn render(outcome: &CommandOutcome) -> (r: String)
    ensures
        r@ == outcome.message@,
{
    outcome.message.clone()
}

} // verus!
