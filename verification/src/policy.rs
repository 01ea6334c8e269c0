use vstd::prelude::*;
use crate::config::TraversalConfig;

verus! {

/// What the walk does with a node once its unfollowed metadata is read.
#[derive(Clone, Copy, PartialEq, Eq, Structural, Debug)]
pub enum NodeAction {
    /// Neither a regular file nor a directory: contributes nothing.
    SkipSpecial,
    /// A symlink to resolve and enter, because following is on.
    FollowLink,
    /// Measured by its own metadata length (a file, or an unfollowed link).
    Measure,
}

/// The decision at the head of a node visit, from the unfollowed metadata
/// alone: special nodes are skipped, symlinks are followed only when the
/// configuration says so, everything else is measured in place.
pub fn classify_node(is_file: bool, is_dir: bool, is_symlink: bool, cfg: &TraversalConfig) -> (a:
    NodeAction)
    ensures
        a == (if !is_file && !is_dir && !is_symlink {
            NodeAction::SkipSpecial
        } else if is_symlink && cfg.follow_symlinks {
            NodeAction::FollowLink
        } else {
            NodeAction::Measure
        }),
{
    if !is_file && !is_dir && !is_symlink {
        NodeAction::SkipSpecial
    } else if is_symlink && cfg.follow_symlinks {
        NodeAction::FollowLink
    } else {
        NodeAction::Measure
    }
}

/// The decision for a directory entry that leads to a directory: it is
/// skipped exactly when it is a symlink and following is off.
pub fn skip_symlinked_dir(is_symlink: bool, cfg: &TraversalConfig) -> (skip: bool)
    ensures
        skip == (is_symlink && !cfg.follow_symlinks),
{
    is_symlink && !cfg.follow_symlinks
}

/// The depth rule: a directory reached at `depth` is scanned exactly when
/// `depth` does not exceed the configured maximum.
pub fn depth_exceeded(depth: u32, cfg: &TraversalConfig) -> (r: bool)
    ensures
        r == (depth > cfg.max_depth as u32),
{
    depth > cfg.max_depth as u32
}

/// The rule for descending through a followed link: the target directory is
/// entered one level deeper only while `depth` is strictly below the
/// maximum; at the limit the target is measured as a plain file instead.
pub fn may_descend_link(depth: u32, cfg: &TraversalConfig) -> (r: bool)
    ensures
        r == (depth < cfg.max_depth as u32),
{
    depth < cfg.max_depth as u32
}

} // verus!
