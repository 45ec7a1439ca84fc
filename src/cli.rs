use vstd::prelude::*;

verus! {

/// The command line of the search tool: one subcommand.
pub struct SearchineCli {
    pub command: Commands,
}

/// The subcommands of the search tool, each with an optional target
/// directory.
pub enum Commands {
    Init { dir_path: Option<String> },
    IndexCorpus { dir_path: Option<String> },
    ListCorpus { dir_path: Option<String> },
    Index { dir_path: Option<String> },
    Status { dir_path: Option<String> },
    Search { query: String, dir_path: Option<String>, top_n: Option<usize> },
}

} // verus!
