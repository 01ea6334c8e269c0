use vstd::prelude::*;

verus! {

/// Immutable configuration for one traversal run.
///
/// `max_depth` bounds directory descent: a directory reached at a depth
/// greater than `max_depth` contributes nothing. `follow_symlinks` enables
/// descending through symbolic links, and `show_breakdown` asks the walker
/// to report one line per directory entry with its accumulated size.
#[derive(Clone, Copy, PartialEq, Eq, Structural, Debug)]
pub struct TraversalConfig {
    pub follow_symlinks: bool,
    pub show_breakdown: bool,
    pub max_depth: u8,
}

impl TraversalConfig {
    /// The defaults of the command line: symlinks skipped, no breakdown,
    /// at most ten levels of descent.
    pub fn new() -> (c: TraversalConfig)
        ensures
            !c.follow_symlinks,
            !c.show_breakdown,
            c.max_depth == 10,
    {
        TraversalConfig { follow_symlinks: false, show_breakdown: false, max_depth: 10 }
    }
}

} // verus!
