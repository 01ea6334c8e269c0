//! What a walk means: the mathematical account of the traversal.
//!
//! The spec functions here define, for any model tree, configuration and
//! starting state, exactly what a scan returns: the byte total, the visited
//! set afterwards, the diagnostics and breakdown lines in order, and
//! whether it aborts. Termination rests on the visited set: every descent
//! either shrinks the set of nodes still open or moves to a structurally
//! smaller phase, so even a tree full of link cycles has a well-defined
//! result. The executable walker in [`crate::engine`] is proved equal to
//! these definitions.
use vstd::prelude::*;
use vstd::set_lib::set_int_range;
use vstd::set_lib::lemma_int_range;
use vstd::set_lib::lemma_len_subset;
use crate::config::TraversalConfig;
use crate::model::{FsModel, LinkTarget, ListOutcome, NodeKind};

verus! {

broadcast use vstd::set::group_set_axioms;

/// The reason a node was skipped or warned about during a walk.
#[derive(Clone, Copy, PartialEq, Eq, Structural, Debug)]
pub enum DiagKind {
    /// A metadata read, canonicalization or listing was refused.
    PermissionDenied,
    /// The node is neither a regular file nor a directory.
    SpecialFile,
    /// A symlinked directory was left alone because following is off.
    SymlinkSkipped,
    /// The canonical node was already processed in this run.
    AlreadyVisited,
    /// A directory lies beyond the configured maximum depth.
    DepthLimit,
    /// Canonicalization failed for a reason other than permission.
    CanonFailed,
}

/// One recoverable skip event: which node, and why.
#[derive(Clone, Copy, PartialEq, Eq, Structural, Debug)]
pub struct Diagnostic {
    pub kind: DiagKind,
    pub node: usize,
}

/// One breakdown line: a directory entry and the bytes it contributed.
#[derive(Clone, Copy, PartialEq, Eq, Structural, Debug)]
pub struct BreakdownLine {
    pub node: usize,
    pub size: u64,
}

/// The unrecoverable failure: listing the named directory failed with an
/// error that is not permission-related, and the traversal aborts.
#[derive(Clone, Copy, PartialEq, Eq, Structural, Debug)]
pub struct FatalIo {
    pub node: usize,
}

/// Where canonicalizing a directory entry leads.
pub enum CanonResult {
    /// The canonical node.
    Canon(usize),
    /// Canonicalization refused for lack of permission.
    Denied,
    /// Canonicalization failed otherwise.
    Broken,
}

/// Everything one walk step yields: the mathematical byte total, the visited
/// set afterwards, the diagnostics and breakdown lines in order, and the
/// directory whose listing failed fatally, if any.
pub ghost struct WalkOut {
    pub total: int,
    pub visited: Set<int>,
    pub diags: Seq<Diagnostic>,
    pub lines: Seq<BreakdownLine>,
    pub fatal: Option<usize>,
}

/// The set of all node indices of the model.
pub open spec fn ids(fs: FsModel) -> Set<int> {
    set_int_range(0, fs.nodes@.len() as int)
}

/// How many nodes a walk may still enter: the termination measure.
pub open spec fn unvisited(fs: FsModel, visited: Set<int>) -> nat {
    ids(fs).difference(visited).len()
}

/// A total clamped into a 64-bit count, as the running accumulator holds it.
pub open spec fn sat64(t: int) -> u64 {
    if t > u64::MAX {
        u64::MAX
    } else if t < 0 {
        0u64
    } else {
        t as u64
    }
}

/// A step that contributes nothing and records one diagnostic.
pub open spec fn skip_out(visited: Set<int>, kind: DiagKind, node: usize) -> WalkOut {
    WalkOut {
        total: 0,
        visited,
        diags: seq![Diagnostic { kind, node }],
        lines: Seq::empty(),
        fatal: None,
    }
}

/// A step that contributes `amount` bytes silently.
pub open spec fn size_out(visited: Set<int>, amount: int) -> WalkOut {
    WalkOut { total: amount, visited, diags: Seq::empty(), lines: Seq::empty(), fatal: None }
}

/// A step that aborts the run at `node`.
pub open spec fn fatal_out(visited: Set<int>, node: usize) -> WalkOut {
    WalkOut { total: 0, visited, diags: Seq::empty(), lines: Seq::empty(), fatal: Some(node) }
}

/// Appends the breakdown line for entry `e` when the configuration asks for
/// one and the step below did not abort.
pub open spec fn with_line(cfg: TraversalConfig, e: usize, out: WalkOut) -> WalkOut {
    if cfg.show_breakdown && out.fatal is None {
        WalkOut {
            total: out.total,
            visited: out.visited,
            diags: out.diags,
            lines: out.lines.push(BreakdownLine { node: e, size: sat64(out.total) }),
            fatal: out.fatal,
        }
    } else {
        out
    }
}

/// Whether a link target leads to a directory.
pub open spec fn link_is_dir(fs: FsModel, target: LinkTarget) -> bool {
    match target {
        LinkTarget::Resolved(t) => (t as int) < fs.nodes@.len() && fs.nodes@[t as int].kind is Dir,
        _ => false,
    }
}

/// Where canonicalizing the path of node `e` leads: a symlink's path leads
/// to its target, any other path to the node itself.
pub open spec fn entry_canon(fs: FsModel, e: int) -> CanonResult
    recommends
        0 <= e < fs.nodes@.len(),
{
    let node = fs.nodes@[e];
    match node.kind {
        NodeKind::Symlink { target, .. } => match target {
            LinkTarget::Resolved(t) => if (t as int) < fs.nodes@.len() {
                CanonResult::Canon(t)
            } else {
                CanonResult::Broken
            },
            LinkTarget::Denied => CanonResult::Denied,
            LinkTarget::Broken => CanonResult::Broken,
        },
        _ => if node.canon_denied {
            CanonResult::Denied
        } else if node.canon_broken {
            CanonResult::Broken
        } else {
            CanonResult::Canon(e as usize)
        },
    }
}

/// Entering one more node strictly shrinks the measure.
pub proof fn lemma_unvisited_insert(fs: FsModel, visited: Set<int>, t: int)
    requires
        0 <= t < fs.nodes@.len(),
        !visited.contains(t),
    ensures
        unvisited(fs, visited.insert(t)) < unvisited(fs, visited),
{
    lemma_int_range(0, fs.nodes@.len() as int);
    let d = ids(fs).difference(visited);
    assert(ids(fs).difference(visited.insert(t)) =~= d.remove(t));
    assert(d.contains(t));
}

/// Growing the visited set never grows the measure.
pub proof fn lemma_unvisited_mono(fs: FsModel, v1: Set<int>, v2: Set<int>)
    requires
        v1.subset_of(v2),
    ensures
        unvisited(fs, v2) <= unvisited(fs, v1),
{
    lemma_int_range(0, fs.nodes@.len() as int);
    assert(ids(fs).difference(v2).subset_of(ids(fs).difference(v1)));
    lemma_len_subset(ids(fs).difference(v2), ids(fs).difference(v1));
}

/// Measures a node the way a plain file is measured: its own metadata
/// length, unless metadata is denied or the node is special.
pub open spec fn measure_leaf(fs: FsModel, id: int, visited: Set<int>) -> WalkOut
    recommends
        0 <= id < fs.nodes@.len(),
{
    let node = fs.nodes@[id];
    if node.meta_denied {
        skip_out(visited, DiagKind::PermissionDenied, id as usize)
    } else {
        match node.kind {
            NodeKind::File { len } => size_out(visited, len as int),
            NodeKind::Dir { len, .. } => size_out(visited, len as int),
            NodeKind::Symlink { len, .. } => size_out(visited, len as int),
            NodeKind::Special => skip_out(visited, DiagKind::SpecialFile, id as usize),
        }
    }
}

/// Enters a node of unknown kind, as the walk does for each file-like
/// directory entry and for each followed link target. Applies the
/// permission, special-file and symlink policies; directories descend.
pub open spec fn walk_node(
    fs: FsModel,
    cfg: TraversalConfig,
    id: int,
    depth: int,
    visited: Set<int>,
) -> WalkOut
    decreases unvisited(fs, visited), 1int, 0int,
{
    if !(0 <= id < fs.nodes@.len()) {
        size_out(visited, 0)
    } else {
        let node = fs.nodes@[id];
        if node.meta_denied {
            skip_out(visited, DiagKind::PermissionDenied, id as usize)
        } else {
            match node.kind {
                NodeKind::Special => skip_out(visited, DiagKind::SpecialFile, id as usize),
                NodeKind::File { len } => size_out(visited, len as int),
                NodeKind::Dir { .. } => walk_dir(fs, cfg, id, depth, visited),
                NodeKind::Symlink { len, target } => {
                    if !cfg.follow_symlinks {
                        if link_is_dir(fs, target) {
                            skip_out(visited, DiagKind::SymlinkSkipped, id as usize)
                        } else {
                            size_out(visited, len as int)
                        }
                    } else {
                        match target {
                            LinkTarget::Denied => skip_out(
                                visited,
                                DiagKind::PermissionDenied,
                                id as usize,
                            ),
                            LinkTarget::Broken => skip_out(
                                visited,
                                DiagKind::CanonFailed,
                                id as usize,
                            ),
                            LinkTarget::Resolved(t) => {
                                if !((t as int) < fs.nodes@.len()) {
                                    skip_out(visited, DiagKind::CanonFailed, id as usize)
                                } else if visited.contains(t as int) {
                                    skip_out(visited, DiagKind::AlreadyVisited, t)
                                } else if fs.nodes@[t as int].kind is Dir && depth < cfg.max_depth
                                    as int {
                                    walk_dir(fs, cfg, t as int, depth + 1, visited)
                                } else if fs.nodes@[t as int].kind is Symlink {
                                    proof {
                                        lemma_unvisited_insert(fs, visited, t as int);
                                    }
                                    walk_node(fs, cfg, t as int, depth, visited.insert(t as int))
                                } else {
                                    measure_leaf(fs, t as int, visited.insert(t as int))
                                }
                            },
                        }
                    }
                },
            }
        }
    }
}

/// Scans a directory: enforces the depth limit, canonicalizes, refuses
/// revisits, marks the directory visited, then walks its entries in order.
pub open spec fn walk_dir(
    fs: FsModel,
    cfg: TraversalConfig,
    id: int,
    depth: int,
    visited: Set<int>,
) -> WalkOut
    decreases unvisited(fs, visited), 0int, 0int,
{
    if !(0 <= id < fs.nodes@.len()) {
        size_out(visited, 0)
    } else if depth > cfg.max_depth as int {
        skip_out(visited, DiagKind::DepthLimit, id as usize)
    } else {
        let node = fs.nodes@[id];
        if node.canon_denied {
            skip_out(visited, DiagKind::PermissionDenied, id as usize)
        } else if node.canon_broken {
            skip_out(visited, DiagKind::CanonFailed, id as usize)
        } else if visited.contains(id) {
            skip_out(visited, DiagKind::AlreadyVisited, id as usize)
        } else {
            match node.kind {
                NodeKind::Dir { entries, list, .. } => {
                    let v2 = visited.insert(id);
                    match list {
                        ListOutcome::Denied => skip_out(v2, DiagKind::PermissionDenied, id as usize),
                        ListOutcome::Fatal => fatal_out(v2, id as usize),
                        ListOutcome::Listed => {
                            proof {
                                lemma_unvisited_insert(fs, visited, id);
                            }
                            walk_upto(fs, cfg, entries@, entries@.len() as int, depth, v2)
                        },
                    }
                },
                _ => fatal_out(visited.insert(id), id as usize),
            }
        }
    }
}

/// Walks the first `k` entries of a directory listed at `depth`, threading
/// the visited set from left to right and stopping at a fatal error.
pub open spec fn walk_upto(
    fs: FsModel,
    cfg: TraversalConfig,
    entries: Seq<usize>,
    k: int,
    depth: int,
    visited: Set<int>,
) -> WalkOut
    decreases unvisited(fs, visited), 2int, k,
{
    if k <= 0 || k > entries.len() {
        size_out(visited, 0)
    } else {
        let prev = walk_upto(fs, cfg, entries, k - 1, depth, visited);
        if prev.fatal is Some {
            prev
        } else {
            let pv = visited.union(prev.visited.intersect(ids(fs)));
            proof {
                lemma_unvisited_mono(fs, visited, pv);
            }
            let cur = walk_entry(fs, cfg, entries[k - 1] as int, depth, pv);
            WalkOut {
                total: prev.total + cur.total,
                visited: cur.visited,
                diags: prev.diags + cur.diags,
                lines: prev.lines + cur.lines,
                fatal: cur.fatal,
            }
        }
    }
}

/// Handles one directory entry: canonicalizes it, refuses revisits, reads
/// its metadata, then dispatches by what the entry ultimately is —
/// directories descend one level deeper, file-like entries are entered in
/// place, and a symlinked directory is skipped when following is off.
pub open spec fn walk_entry(
    fs: FsModel,
    cfg: TraversalConfig,
    e: int,
    depth: int,
    visited: Set<int>,
) -> WalkOut
    decreases unvisited(fs, visited), 2int, 0int,
{
    if !(0 <= e < fs.nodes@.len()) {
        size_out(visited, 0)
    } else {
        let node = fs.nodes@[e];
        match entry_canon(fs, e) {
            CanonResult::Denied => skip_out(visited, DiagKind::PermissionDenied, e as usize),
            CanonResult::Broken => skip_out(visited, DiagKind::CanonFailed, e as usize),
            CanonResult::Canon(c) => {
                if visited.contains(c as int) {
                    skip_out(visited, DiagKind::AlreadyVisited, c)
                } else if node.meta_denied {
                    skip_out(visited, DiagKind::PermissionDenied, e as usize)
                } else {
                    match node.kind {
                        NodeKind::Special => skip_out(visited, DiagKind::SpecialFile, e as usize),
                        NodeKind::File { .. } => with_line(
                            cfg,
                            e as usize,
                            walk_node(fs, cfg, e, depth, visited),
                        ),
                        NodeKind::Dir { .. } => with_line(
                            cfg,
                            e as usize,
                            walk_dir(fs, cfg, e, depth + 1, visited),
                        ),
                        NodeKind::Symlink { target, .. } => {
                            if link_is_dir(fs, target) && !cfg.follow_symlinks {
                                skip_out(visited, DiagKind::SymlinkSkipped, e as usize)
                            } else {
                                with_line(cfg, e as usize, walk_node(fs, cfg, e, depth, visited))
                            }
                        },
                    }
                }
            },
        }
    }
}

/// The whole run: scan the root directory at depth zero with an empty
/// visited set.
pub open spec fn scan_spec(fs: FsModel, cfg: TraversalConfig, root: int) -> WalkOut {
    walk_dir(fs, cfg, root, 0, Set::empty())
}

/// Once a prefix of a directory's entries ends in a fatal error, the walk
/// of any longer prefix stops there unchanged.
pub proof fn lemma_upto_fatal_stable(
    fs: FsModel,
    cfg: TraversalConfig,
    entries: Seq<usize>,
    j: int,
    k: int,
    depth: int,
    visited: Set<int>,
)
    requires
        0 <= j <= k <= entries.len(),
        walk_upto(fs, cfg, entries, j, depth, visited).fatal is Some,
    ensures
        walk_upto(fs, cfg, entries, k, depth, visited) == walk_upto(
            fs,
            cfg,
            entries,
            j,
            depth,
            visited,
        ),
    decreases k - j,
{
    if j < k {
        lemma_upto_fatal_stable(fs, cfg, entries, j, k - 1, depth, visited);
    }
}

/// A walk step never forgets a visited node and never counts negative bytes.
pub proof fn lemma_walk_node_bounds(
    fs: FsModel,
    cfg: TraversalConfig,
    id: int,
    depth: int,
    visited: Set<int>,
)
    ensures
        visited.subset_of(walk_node(fs, cfg, id, depth, visited).visited),
        walk_node(fs, cfg, id, depth, visited).total >= 0,
    decreases unvisited(fs, visited), 1int, 0int,
{
    if 0 <= id < fs.nodes@.len() {
        let node = fs.nodes@[id];
        if !node.meta_denied {
            match node.kind {
                NodeKind::Dir { .. } => {
                    lemma_walk_dir_bounds(fs, cfg, id, depth, visited);
                },
                NodeKind::Symlink { len, target } => {
                    if cfg.follow_symlinks {
                        match target {
                            LinkTarget::Resolved(t) => {
                                if (t as int) < fs.nodes@.len() && !visited.contains(t as int) {
                                    if fs.nodes@[t as int].kind is Dir && depth < cfg.max_depth
                                        as int {
                                        lemma_walk_dir_bounds(fs, cfg, t as int, depth + 1, visited);
                                    } else if fs.nodes@[t as int].kind is Symlink {
                                        lemma_unvisited_insert(fs, visited, t as int);
                                        lemma_walk_node_bounds(
                                            fs,
                                            cfg,
                                            t as int,
                                            depth,
                                            visited.insert(t as int),
                                        );
                                    }
                                }
                            },
                            _ => {},
                        }
                    }
                },
                _ => {},
            }
        }
    }
}

/// A directory scan never forgets a visited node and never counts negative
/// bytes.
pub proof fn lemma_walk_dir_bounds(
    fs: FsModel,
    cfg: TraversalConfig,
    id: int,
    depth: int,
    visited: Set<int>,
)
    ensures
        visited.subset_of(walk_dir(fs, cfg, id, depth, visited).visited),
        walk_dir(fs, cfg, id, depth, visited).total >= 0,
    decreases unvisited(fs, visited), 0int, 0int,
{
    if 0 <= id < fs.nodes@.len() && depth <= cfg.max_depth as int {
        let node = fs.nodes@[id];
        if !node.canon_denied && !node.canon_broken && !visited.contains(id) {
            match node.kind {
                NodeKind::Dir { entries, list, .. } => {
                    if list is Listed {
                        lemma_unvisited_insert(fs, visited, id);
                        lemma_walk_upto_bounds(
                            fs,
                            cfg,
                            entries@,
                            entries@.len() as int,
                            depth,
                            visited.insert(id),
                        );
                    }
                },
                _ => {},
            }
        }
    }
}

/// Walking a prefix of a directory's entries never forgets a visited node
/// and never counts negative bytes.
pub proof fn lemma_walk_upto_bounds(
    fs: FsModel,
    cfg: TraversalConfig,
    entries: Seq<usize>,
    k: int,
    depth: int,
    visited: Set<int>,
)
    ensures
        visited.subset_of(walk_upto(fs, cfg, entries, k, depth, visited).visited),
        walk_upto(fs, cfg, entries, k, depth, visited).total >= 0,
    decreases unvisited(fs, visited), 2int, k,
{
    if 0 < k <= entries.len() {
        lemma_walk_upto_bounds(fs, cfg, entries, k - 1, depth, visited);
        let prev = walk_upto(fs, cfg, entries, k - 1, depth, visited);
        if !(prev.fatal is Some) {
            let pv = visited.union(prev.visited.intersect(ids(fs)));
            lemma_unvisited_mono(fs, visited, pv);
            lemma_walk_entry_bounds(fs, cfg, entries[k - 1] as int, depth, pv);
        }
    }
}

/// One entry step never forgets a visited node and never counts negative
/// bytes.
pub proof fn lemma_walk_entry_bounds(
    fs: FsModel,
    cfg: TraversalConfig,
    e: int,
    depth: int,
    visited: Set<int>,
)
    ensures
        visited.subset_of(walk_entry(fs, cfg, e, depth, visited).visited),
        walk_entry(fs, cfg, e, depth, visited).total >= 0,
    decreases unvisited(fs, visited), 2int, 0int,
{
    if 0 <= e < fs.nodes@.len() {
        let node = fs.nodes@[e];
        match entry_canon(fs, e) {
            CanonResult::Canon(c) => {
                if !visited.contains(c as int) && !node.meta_denied {
                    match node.kind {
                        NodeKind::File { .. } => {
                            lemma_walk_node_bounds(fs, cfg, e, depth, visited);
                        },
                        NodeKind::Dir { .. } => {
                            lemma_walk_dir_bounds(fs, cfg, e, depth + 1, visited);
                        },
                        NodeKind::Symlink { target, .. } => {
                            if !(link_is_dir(fs, target) && !cfg.follow_symlinks) {
                                lemma_walk_node_bounds(fs, cfg, e, depth, visited);
                            }
                        },
                        _ => {},
                    }
                }
            },
            _ => {},
        }
    }
}

} // verus!
