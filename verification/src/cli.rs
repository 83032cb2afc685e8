//! Command-line argument data.

use vstd::prelude::*;

verus! {

/// Arguments for one analysis run.
pub struct CliArgs {
    /// Path to the space missions log file.
    pub file_path: String,
}

} // verus!
