//! How a command's outcome is written to standard output.
use vstd::prelude::*;

use crate::commands::CommandOutcome;
use crate::report::json::{json_spec, render as render_json};
use crate::util::concat2;

verus! {

#[derive(Debug, Clone, Copy, PartialEq, Eq, Structural)]
pub enum OutputFormat {
    Text,
    Json,
    Markdown,
}

/// The text printed for an outcome in the given format (without the final
/// newline); in JSON a single-line object whose message is fully escaped.
pub open spec fn rendered_spec(message: Seq<char>, exit_code: i32, format: OutputFormat) -> Seq<char> {
    match format {
        OutputFormat::Text => message,
        OutputFormat::Json => json_spec(message, exit_code),
        OutputFormat::Markdown => "# EnvSentinel\n\n"@ + message,
    }
}

/// The text that rendering `outcome` in `format` prints.
pub fn format_outcome(outcome: &CommandOutcome, format: OutputFormat) -> (r: String)
    ensures
        r@ == rendered_spec(outcome.message@, outcome.exit_code, format),
{
    match format {
        OutputFormat::Text => outcome.message.clone(),
        OutputFormat::Json => render_json(outcome),
        OutputFormat::Markdown => concat2("# EnvSentinel\n\n", outcome.message.as_str()),
    }
}

} // verus!
