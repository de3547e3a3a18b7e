//! Command-line arguments.

use vstd::prelude::*;

verus! {

/// The model that summarizes where none is named.
pub const DEFAULT_MODEL: &'static str = "gpt-4o-mini";

/// pliny — terraform plan comprehension TUI with AI risk summaries
#[derive(Debug)]
pub struct Args {
    /// Optional path to a terraform plan JSON file to preload
    /// (output of `terraform show -json plan.binary`). If omitted,
    /// pliny starts with an empty tree and waits for commands.
    pub plan_path: Option<String>,
    /// Skip the AI summary call
    pub no_ai: bool,
    /// Show no-op resource changes in the tree (hidden by default)
    pub show_noops: bool,
    /// OpenAI model id for the summary call
    pub model: String,
}

} // verus!
