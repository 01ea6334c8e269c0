//! The walk's stated laws: depth limiting, cycle safety, symlink policy
//! and permission resilience, each proved from the definitions in
//! [`crate::walk`].
use vstd::prelude::*;
use crate::config::TraversalConfig;
use crate::model::{FsModel, NodeKind};
use crate::walk::{
    entry_canon, ids, skip_out, walk_dir, walk_entry, walk_upto, with_line, CanonResult, DiagKind,
};

verus! {

/// Depth policy: a directory reached past the configured maximum contributes
/// nothing, marks nothing visited, and leaves exactly one depth diagnostic.
/// Together with the walk unfolding this pins the limit: a directory at
/// depth equal to the maximum is still scanned, one deeper is not.
pub proof fn lemma_depth_limit(
    fs: FsModel,
    cfg: TraversalConfig,
    id: int,
    depth: int,
    visited: Set<int>,
)
    requires
        0 <= id < fs.nodes@.len(),
        depth > cfg.max_depth as int,
    ensures
        walk_dir(fs, cfg, id, depth, visited) == skip_out(visited, DiagKind::DepthLimit, id as usize),
{
}

/// Cycle safety: a directory whose canonical node was already processed in
/// this run is never rescanned — it contributes nothing, marks nothing, and
/// leaves exactly one already-visited diagnostic. With every scanned
/// directory inserted before its entries are walked, this is what keeps a
/// walk over a symlink cycle from counting anything twice.
pub proof fn lemma_no_rescan(
    fs: FsModel,
    cfg: TraversalConfig,
    id: int,
    depth: int,
    visited: Set<int>,
)
    requires
        0 <= id < fs.nodes@.len(),
        depth <= cfg.max_depth as int,
        !fs.nodes@[id].canon_denied,
        !fs.nodes@[id].canon_broken,
        visited.contains(id),
    ensures
        walk_dir(fs, cfg, id, depth, visited) == skip_out(
            visited,
            DiagKind::AlreadyVisited,
            id as usize,
        ),
{
}

/// Symlink policy with following off: a directory entry that is a symlink
/// to a directory contributes nothing and leaves exactly one symlink
/// diagnostic.
pub proof fn lemma_symlink_dir_skipped(
    fs: FsModel,
    cfg: TraversalConfig,
    e: int,
    t: usize,
    depth: int,
    visited: Set<int>,
)
    requires
        0 <= e < fs.nodes@.len(),
        fs.nodes@[e].kind is Symlink,
        !fs.nodes@[e].meta_denied,
        entry_canon(fs, e) == CanonResult::Canon(t),
        (t as int) < fs.nodes@.len(),
        fs.nodes@[t as int].kind is Dir,
        !cfg.follow_symlinks,
        !visited.contains(t as int),
    ensures
        walk_entry(fs, cfg, e, depth, visited) == skip_out(
            visited,
            DiagKind::SymlinkSkipped,
            e as usize,
        ),
{
}

/// Symlink policy with following on: an entry that is a symlink to an
/// unvisited real directory, within the depth budget, is scanned exactly as
/// that directory one level deeper — so its contents are counted there, and
/// by [`lemma_no_rescan`] never a second time.
pub proof fn lemma_symlink_dir_followed(
    fs: FsModel,
    cfg: TraversalConfig,
    e: int,
    t: usize,
    depth: int,
    visited: Set<int>,
)
    requires
        0 <= e < fs.nodes@.len(),
        fs.nodes@[e].kind is Symlink,
        !fs.nodes@[e].meta_denied,
        entry_canon(fs, e) == CanonResult::Canon(t),
        (t as int) < fs.nodes@.len(),
        fs.nodes@[t as int].kind is Dir,
        cfg.follow_symlinks,
        !visited.contains(t as int),
        depth < cfg.max_depth as int,
    ensures
        walk_entry(fs, cfg, e, depth, visited) == with_line(
            cfg,
            e as usize,
            walk_dir(fs, cfg, t as int, depth + 1, visited),
        ),
{
}

/// Permission resilience, the entry side: an entry whose metadata read is
/// denied contributes nothing, marks nothing, aborts nothing, and leaves
/// exactly one permission diagnostic.
pub proof fn lemma_denied_entry(
    fs: FsModel,
    cfg: TraversalConfig,
    e: int,
    c: usize,
    depth: int,
    visited: Set<int>,
)
    requires
        0 <= e < fs.nodes@.len(),
        fs.nodes@[e].meta_denied,
        entry_canon(fs, e) == CanonResult::Canon(c),
        !visited.contains(c as int),
    ensures
        walk_entry(fs, cfg, e, depth, visited) == skip_out(
            visited,
            DiagKind::PermissionDenied,
            e as usize,
        ),
{
}

/// Additivity, and permission resilience on the sibling side: as long as no
/// earlier entry aborted fatally, the total over the first `k` entries is
/// the total over the first `k - 1` plus what entry `k` itself contributes
/// on the visited set threaded up to it. A skipped entry contributes zero
/// and the walk goes on to the siblings; only a fatal listing error stops
/// the sum.
pub proof fn lemma_entries_additive(
    fs: FsModel,
    cfg: TraversalConfig,
    entries: Seq<usize>,
    k: int,
    depth: int,
    visited: Set<int>,
)
    requires
        0 < k <= entries.len(),
        !(walk_upto(fs, cfg, entries, k - 1, depth, visited).fatal is Some),
    ensures
        ({
            let prev = walk_upto(fs, cfg, entries, k - 1, depth, visited);
            let pv = visited.union(prev.visited.intersect(ids(fs)));
            let cur = walk_entry(fs, cfg, entries[k - 1] as int, depth, pv);
            &&& walk_upto(fs, cfg, entries, k, depth, visited).total == prev.total + cur.total
            &&& walk_upto(fs, cfg, entries, k, depth, visited).fatal == cur.fatal
            &&& walk_upto(fs, cfg, entries, k, depth, visited).diags == prev.diags + cur.diags
        }),
{
}

} // verus!
