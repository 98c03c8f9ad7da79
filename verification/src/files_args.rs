//! Options that choose what is printed of the files in a directory.

use vstd::prelude::*;

verus! {

/// What to print of each file listed.
#[derive(Clone, Copy, Debug, PartialEq, Eq, Structural)]
pub struct FilesArgs {
    /// Print the path of each file.
    pub print_paths: bool,
    /// Print metadata about each file including path, modification time and size in bytes.
    pub print_all_details: bool,
}

} // verus!
