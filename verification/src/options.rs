//! Command-line options of the inspector, as plain data. The argument parser
//! itself lives outside the library; it fills this struct and hands it in.

use vstd::prelude::*;

verus! {

/// What the user asked for on the command line: the item to inspect, whether
/// to take it verbatim as a URI (instead of resolving it as a filesystem
/// path), and whether to emit diagnostic output.
pub struct Options {
    /// Interpret `item` as a URI rather than a filesystem path.
    pub uri: bool,
    /// Enable debug output.
    pub debug: bool,
    /// File path or URI to open.
    pub item: String,
}

} // verus!
