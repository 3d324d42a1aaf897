//! `grf list`: how the listing is shown.
use vstd::prelude::*;

use crate::cli::args::ListArgs;
use crate::text::owned;

verus! {

/// How `grf list` shows what it lists.
#[derive(Debug)]
pub enum ListOutput {
    /// As JSON.
    Json,
    /// As this message, the list being empty.
    Message(String),
    /// As a table, with the extra columns when verbose.
    Table { verbose: bool },
}

/// JSON with `--json`; otherwise a message when there is nothing to list (loaded
/// references with `--load`, cached repositories without), else a table.
pub fn list_output(args: &ListArgs, count: usize) -> (o: ListOutput)
    ensures
        args.json ==> o matches ListOutput::Json,
        !args.json && count == 0 && args.load ==> (o matches ListOutput::Message(m) && m@
            == "No loaded references found in the current workspace."@),
        !args.json && count == 0 && !args.load ==> (o matches ListOutput::Message(m) && m@
            == "No cached repositories found."@),
        !args.json && count > 0 ==> (o matches ListOutput::Table { verbose } && verbose == args.verbose),
{
    if args.json {
        ListOutput::Json
    } else if count == 0 {
        if args.load {
            ListOutput::Message(owned("No loaded references found in the current workspace."))
        } else {
            ListOutput::Message(owned("No cached repositories found."))
        }
    } else {
        ListOutput::Table { verbose: args.verbose }
    }
}

} // verus!
