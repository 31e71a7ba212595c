//! How the command-line client prints results.
use vstd::prelude::*;

verus! {

/// Whether results are printed as JSON or for people.
#[derive(Debug, Clone, Copy)]
pub struct OutputMode {
    pub json: bool,
}

impl OutputMode {
    /// The mode selected by the `--json` flag.
    pub fn new(json: bool) -> (m: Self)
        ensures
            m.json == json,
    {
        OutputMode { json }
    }
}

} // verus!
