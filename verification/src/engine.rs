//! The executable walker, proved equal to the account in [`crate::walk`].
//!
//! [`compute_size`] scans a model tree with a fresh visited set; its
//! contract ties the returned count, the diagnostics and the breakdown
//! lines to the specification for every input.
use vstd::prelude::*;
use crate::config::TraversalConfig;
use crate::model::{node_entries, node_wf, FsModel, LinkTarget, ListOutcome, NodeKind};
use crate::walk::{
    entry_canon, ids, lemma_unvisited_insert, lemma_upto_fatal_stable, lemma_walk_entry_bounds,
    lemma_walk_upto_bounds, link_is_dir, measure_leaf, sat64, scan_spec, walk_dir, walk_entry,
    walk_node, walk_upto, unvisited, BreakdownLine, CanonResult, DiagKind, Diagnostic, FatalIo,
    WalkOut,
};

verus! {

/// The visited set of a model walk: one mark per node index.
pub struct VisitedIds {
    marks: Vec<bool>,
}

impl VisitedIds {
    /// The set of marked indices.
    pub closed spec fn view(&self) -> Set<int> {
        Set::new(|i: int| 0 <= i < self.marks@.len() && self.marks@[i])
    }

    /// How many indices the set can mark.
    pub closed spec fn capacity(&self) -> int {
        self.marks@.len() as int
    }

    /// Every mark lies below the capacity.
    pub proof fn lemma_bounded(&self)
        ensures
            forall|i: int| #[trigger] self@.contains(i) ==> 0 <= i < self.capacity(),
    {
    }

    /// A fresh set marking nothing, sized for a model of `n` nodes.
    pub fn new(n: usize) -> (s: VisitedIds)
        ensures
            s@ == Set::<int>::empty(),
            s.capacity() == n,
    {
        let mut marks: Vec<bool> = Vec::new();
        let mut i: usize = 0;
        while i < n
            invariant
                marks@.len() == i,
                i <= n,
                forall|j: int| 0 <= j < i ==> !(#[trigger] marks@[j]),
            decreases n - i,
        {
            marks.push(false);
            i += 1;
        }
        let s = VisitedIds { marks };
        proof {
            assert(s@ =~= Set::<int>::empty());
        }
        s
    }

    /// Whether index `i` is marked.
    pub fn contains(&self, i: usize) -> (r: bool)
        requires
            (i as int) < self.capacity(),
        ensures
            r == self@.contains(i as int),
    {
        self.marks[i]
    }

    /// Marks index `i`.
    pub fn insert(&mut self, i: usize)
        requires
            (i as int) < old(self).capacity(),
        ensures
            final(self).capacity() == old(self).capacity(),
            final(self)@ == old(self)@.insert(i as int),
    {
        self.marks.set(i, true);
        proof {
            assert(self@ =~= old(self)@.insert(i as int));
        }
    }
}

/// What every walk step guarantees: the visited set, diagnostics and
/// breakdown lines land exactly where the specification says, and the
/// returned count is the clamped total unless the step aborted.
pub open spec fn walk_exec_post(
    out: WalkOut,
    diags0: Seq<Diagnostic>,
    lines0: Seq<BreakdownLine>,
    visited1: Set<int>,
    diags1: Seq<Diagnostic>,
    lines1: Seq<BreakdownLine>,
    r: Result<u64, FatalIo>,
) -> bool {
    &&& visited1 == out.visited
    &&& diags1 == diags0 + out.diags
    &&& lines1 == lines0 + out.lines
    &&& match r {
        Result::Ok(t) => out.fatal is None && t == sat64(out.total),
        Result::Err(f) => out.fatal == Some(f.node),
    }
}

/// Records one diagnostic.
fn push_diag(diags: &mut Vec<Diagnostic>, kind: DiagKind, node: usize)
    ensures
        final(diags)@ == old(diags)@ + seq![Diagnostic { kind, node }],
{
    diags.push(Diagnostic { kind, node });
    proof {
        assert(diags@ =~= old(diags)@ + seq![Diagnostic { kind, node }]);
    }
}

proof fn lemma_add_empty_diag(s: Seq<Diagnostic>)
    ensures
        s + Seq::<Diagnostic>::empty() == s,
{
    assert(s + Seq::<Diagnostic>::empty() =~= s);
}

proof fn lemma_add_empty_line(s: Seq<BreakdownLine>)
    ensures
        s + Seq::<BreakdownLine>::empty() == s,
{
    assert(s + Seq::<BreakdownLine>::empty() =~= s);
}

/// Adds two counts, clamping at the largest 64-bit value.
pub fn add_saturating(a: u64, b: u64) -> (r: u64)
    ensures
        r == sat64(a as int + b as int),
{
    if a > u64::MAX - b {
        u64::MAX
    } else {
        a + b
    }
}

/// Whether a kind is a directory.
fn is_dir_kind(kind: &NodeKind) -> (r: bool)
    ensures
        r == (*kind is Dir),
{
    match kind {
        NodeKind::Dir { .. } => true,
        _ => false,
    }
}

/// Whether a kind is a symlink.
fn is_symlink_kind(kind: &NodeKind) -> (r: bool)
    ensures
        r == (*kind is Symlink),
{
    match kind {
        NodeKind::Symlink { .. } => true,
        _ => false,
    }
}

/// Whether a link target leads to a directory of the model.
fn link_is_dir_x(fs: &FsModel, target: &LinkTarget) -> (r: bool)
    ensures
        r == link_is_dir(*fs, *target),
{
    match target {
        LinkTarget::Resolved(t) => {
            if *t < fs.nodes.len() {
                is_dir_kind(&fs.nodes[*t].kind)
            } else {
                false
            }
        },
        _ => false,
    }
}

/// Where canonicalizing the path of node `e` leads.
fn entry_canon_x(fs: &FsModel, e: usize) -> (r: CanonResult)
    requires
        (e as int) < fs.nodes@.len(),
    ensures
        r == entry_canon(*fs, e as int),
        match r {
            CanonResult::Canon(c) => (c as int) < fs.nodes@.len(),
            _ => true,
        },
{
    let node = &fs.nodes[e];
    match &node.kind {
        NodeKind::Symlink { target, .. } => match target {
            LinkTarget::Resolved(t) => {
                if *t < fs.nodes.len() {
                    CanonResult::Canon(*t)
                } else {
                    CanonResult::Broken
                }
            },
            LinkTarget::Denied => CanonResult::Denied,
            LinkTarget::Broken => CanonResult::Broken,
        },
        _ => {
            if node.canon_denied {
                CanonResult::Denied
            } else if node.canon_broken {
                CanonResult::Broken
            } else {
                CanonResult::Canon(e)
            }
        },
    }
}

/// Measures a node the way a plain file is measured.
fn measure_leaf_x(fs: &FsModel, id: usize, vis: Ghost<Set<int>>, diags: &mut Vec<Diagnostic>) -> (r:
    u64)
    requires
        (id as int) < fs.nodes@.len(),
    ensures
        ({
            let out = measure_leaf(*fs, id as int, vis@);
            &&& out.fatal is None
            &&& out.visited == vis@
            &&& out.lines == Seq::<BreakdownLine>::empty()
            &&& final(diags)@ == old(diags)@ + out.diags
            &&& r == sat64(out.total)
        }),
{
    let node = &fs.nodes[id];
    if node.meta_denied {
        push_diag(diags, DiagKind::PermissionDenied, id);
        0
    } else {
        match &node.kind {
            NodeKind::File { len } => {
                proof {
                    lemma_add_empty_diag(old(diags)@);
                }
                *len
            },
            NodeKind::Dir { len, .. } => {
                proof {
                    lemma_add_empty_diag(old(diags)@);
                }
                *len
            },
            NodeKind::Symlink { len, .. } => {
                proof {
                    lemma_add_empty_diag(old(diags)@);
                }
                *len
            },
            NodeKind::Special => {
                push_diag(diags, DiagKind::SpecialFile, id);
                0
            },
        }
    }
}

/// Enters one node: the executable mirror of [`walk_node`].
pub fn walk_node_x(
    fs: &FsModel,
    cfg: &TraversalConfig,
    id: usize,
    depth: u32,
    visited: &mut VisitedIds,
    diags: &mut Vec<Diagnostic>,
    lines: &mut Vec<BreakdownLine>,
) -> (r: Result<u64, FatalIo>)
    requires
        fs.wf(),
        (id as int) < fs.nodes@.len(),
        old(visited).capacity() == fs.nodes@.len(),
        depth <= u8::MAX as u32,
    ensures
        final(visited).capacity() == fs.nodes@.len(),
        walk_exec_post(
            walk_node(*fs, *cfg, id as int, depth as int, old(visited)@),
            old(diags)@,
            old(lines)@,
            final(visited)@,
            final(diags)@,
            final(lines)@,
            r,
        ),
    decreases unvisited(*fs, old(visited)@), 1int, 0int,
{
    proof {
        lemma_add_empty_line(old(lines)@);
        lemma_add_empty_diag(old(diags)@);
    }
    let node = &fs.nodes[id];
    if node.meta_denied {
        push_diag(diags, DiagKind::PermissionDenied, id);
        return Ok(0);
    }
    match &node.kind {
        NodeKind::Special => {
            push_diag(diags, DiagKind::SpecialFile, id);
            Ok(0)
        },
        NodeKind::File { len } => Ok(*len),
        NodeKind::Dir { .. } => walk_dir_x(fs, cfg, id, depth, visited, diags, lines),
        NodeKind::Symlink { len, target } => {
            if !cfg.follow_symlinks {
                if link_is_dir_x(fs, target) {
                    push_diag(diags, DiagKind::SymlinkSkipped, id);
                    Ok(0)
                } else {
                    Ok(*len)
                }
            } else {
                match target {
                    LinkTarget::Denied => {
                        push_diag(diags, DiagKind::PermissionDenied, id);
                        Ok(0)
                    },
                    LinkTarget::Broken => {
                        push_diag(diags, DiagKind::CanonFailed, id);
                        Ok(0)
                    },
                    LinkTarget::Resolved(t) => {
                        let t = *t;
                        proof {
                            assert(node_wf(fs.nodes@[id as int], fs.nodes@.len() as int));
                        }
                        if visited.contains(t) {
                            push_diag(diags, DiagKind::AlreadyVisited, t);
                            Ok(0)
                        } else {
                            let tnode = &fs.nodes[t];
                            if is_dir_kind(&tnode.kind) && depth < cfg.max_depth as u32 {
                                walk_dir_x(fs, cfg, t, depth + 1, visited, diags, lines)
                            } else if is_symlink_kind(&tnode.kind) {
                                proof {
                                    lemma_unvisited_insert(*fs, visited@, t as int);
                                }
                                visited.insert(t);
                                walk_node_x(fs, cfg, t, depth, visited, diags, lines)
                            } else {
                                visited.insert(t);
                                let sz = measure_leaf_x(fs, t, Ghost(visited@), diags);
                                Ok(sz)
                            }
                        }
                    },
                }
            }
        },
    }
}

/// Scans one directory: the executable mirror of [`walk_dir`].
pub fn walk_dir_x(
    fs: &FsModel,
    cfg: &TraversalConfig,
    id: usize,
    depth: u32,
    visited: &mut VisitedIds,
    diags: &mut Vec<Diagnostic>,
    lines: &mut Vec<BreakdownLine>,
) -> (r: Result<u64, FatalIo>)
    requires
        fs.wf(),
        (id as int) < fs.nodes@.len(),
        old(visited).capacity() == fs.nodes@.len(),
        depth <= u8::MAX as u32 + 1,
    ensures
        final(visited).capacity() == fs.nodes@.len(),
        walk_exec_post(
            walk_dir(*fs, *cfg, id as int, depth as int, old(visited)@),
            old(diags)@,
            old(lines)@,
            final(visited)@,
            final(diags)@,
            final(lines)@,
            r,
        ),
    decreases unvisited(*fs, old(visited)@), 0int, 0int,
{
    let ghost v0 = visited@;
    proof {
        lemma_add_empty_line(old(lines)@);
        lemma_add_empty_diag(old(diags)@);
    }
    if depth > cfg.max_depth as u32 {
        push_diag(diags, DiagKind::DepthLimit, id);
        return Ok(0);
    }
    let node = &fs.nodes[id];
    if node.canon_denied {
        push_diag(diags, DiagKind::PermissionDenied, id);
        return Ok(0);
    }
    if node.canon_broken {
        push_diag(diags, DiagKind::CanonFailed, id);
        return Ok(0);
    }
    if visited.contains(id) {
        push_diag(diags, DiagKind::AlreadyVisited, id);
        return Ok(0);
    }
    match &node.kind {
        NodeKind::Dir { entries, list, .. } => {
            visited.insert(id);
            let ghost v2 = visited@;
            match list {
                ListOutcome::Denied => {
                    push_diag(diags, DiagKind::PermissionDenied, id);
                    Ok(0)
                },
                ListOutcome::Fatal => Err(FatalIo { node: id }),
                ListOutcome::Listed => {
                    let ghost diags0 = diags@;
                    let ghost lines0 = lines@;
                    let mut total: u64 = 0;
                    let n_entries = entries.len();
                    let mut j: usize = 0;
                    proof {
                        visited.lemma_bounded();
                        assert(v2.subset_of(ids(*fs)));
                        assert(entries@ == node_entries(fs.nodes@[id as int]));
                        lemma_unvisited_insert(*fs, v0, id as int);
                    }
                    while j < n_entries
                        invariant
                            fs.wf(),
                            (id as int) < fs.nodes@.len(),
                            fs.nodes@[id as int].kind is Dir,
                            entries@ == node_entries(fs.nodes@[id as int]),
                            n_entries == entries@.len(),
                            j <= n_entries,
                            visited.capacity() == fs.nodes@.len(),
                            depth <= cfg.max_depth as u32,
                            cfg.max_depth as u32 <= u8::MAX as u32,
                            v2.subset_of(ids(*fs)),
                            v0 == old(visited)@,
                            diags0 == old(diags)@,
                            lines0 == old(lines)@,
                            v2.subset_of(visited@),
                            unvisited(*fs, v2) < unvisited(*fs, v0),
                            walk_dir(*fs, *cfg, id as int, depth as int, v0) == walk_upto(
                                *fs,
                                *cfg,
                                entries@,
                                n_entries as int,
                                depth as int,
                                v2,
                            ),
                            ({
                                let up = walk_upto(
                                    *fs,
                                    *cfg,
                                    entries@,
                                    j as int,
                                    depth as int,
                                    v2,
                                );
                                &&& up.fatal is None
                                &&& visited@ == up.visited
                                &&& total == sat64(up.total)
                                &&& diags@ == diags0 + up.diags
                                &&& lines@ == lines0 + up.lines
                            }),
                        decreases n_entries - j,
                    {
                        let e = entries[j];
                        let ghost up_j = walk_upto(*fs, *cfg, entries@, j as int, depth as int, v2);
                        proof {
                            assert(node_wf(fs.nodes@[id as int], fs.nodes@.len() as int));
                            assert((entries@[j as int] as int) < fs.nodes@.len());
                            lemma_walk_upto_bounds(*fs, *cfg, entries@, j as int, depth as int, v2);
                            visited.lemma_bounded();
                            // the threaded set the specification hands the next entry is
                            // exactly the set the walker holds
                            assert(v2.union(up_j.visited.intersect(ids(*fs))) =~= visited@);
                            crate::walk::lemma_unvisited_mono(*fs, v2, visited@);
                        }
                        let res = walk_entry_x(fs, cfg, e, depth, visited, diags, lines);
                        let ghost cur = walk_entry(
                            *fs,
                            *cfg,
                            e as int,
                            depth as int,
                            v2.union(up_j.visited.intersect(ids(*fs))),
                        );
                        proof {
                            lemma_walk_entry_bounds(
                                *fs,
                                *cfg,
                                e as int,
                                depth as int,
                                v2.union(up_j.visited.intersect(ids(*fs))),
                            );
                        }
                        match res {
                            Ok(sz) => {
                                total = add_saturating(total, sz);
                                j += 1;
                                proof {
                                    let up_n = walk_upto(
                                        *fs,
                                        *cfg,
                                        entries@,
                                        j as int,
                                        depth as int,
                                        v2,
                                    );
                                    assert(up_n.total == up_j.total + cur.total);
                                    assert(diags@ =~= diags0 + up_n.diags);
                                    assert(lines@ =~= lines0 + up_n.lines);
                                }
                            },
                            Err(f) => {
                                proof {
                                    let up_n = walk_upto(
                                        *fs,
                                        *cfg,
                                        entries@,
                                        (j + 1) as int,
                                        depth as int,
                                        v2,
                                    );
                                    assert(up_n.fatal == Some(f.node));
                                    lemma_upto_fatal_stable(
                                        *fs,
                                        *cfg,
                                        entries@,
                                        (j + 1) as int,
                                        entries@.len() as int,
                                        depth as int,
                                        v2,
                                    );
                                    assert(diags@ =~= diags0 + up_n.diags);
                                    assert(lines@ =~= lines0 + up_n.lines);
                                }
                                return Err(f);
                            },
                        }
                    }
                    Ok(total)
                },
            }
        },
        _ => {
            visited.insert(id);
            Err(FatalIo { node: id })
        },
    }
}

/// Handles one directory entry: the executable mirror of [`walk_entry`].
fn walk_entry_x(
    fs: &FsModel,
    cfg: &TraversalConfig,
    e: usize,
    depth: u32,
    visited: &mut VisitedIds,
    diags: &mut Vec<Diagnostic>,
    lines: &mut Vec<BreakdownLine>,
) -> (r: Result<u64, FatalIo>)
    requires
        fs.wf(),
        (e as int) < fs.nodes@.len(),
        old(visited).capacity() == fs.nodes@.len(),
        depth <= u8::MAX as u32,
    ensures
        final(visited).capacity() == fs.nodes@.len(),
        walk_exec_post(
            walk_entry(*fs, *cfg, e as int, depth as int, old(visited)@),
            old(diags)@,
            old(lines)@,
            final(visited)@,
            final(diags)@,
            final(lines)@,
            r,
        ),
    decreases unvisited(*fs, old(visited)@), 2int, 0int,
{
    proof {
        lemma_add_empty_line(old(lines)@);
        lemma_add_empty_diag(old(diags)@);
    }
    let node = &fs.nodes[e];
    match entry_canon_x(fs, e) {
        CanonResult::Denied => {
            push_diag(diags, DiagKind::PermissionDenied, e);
            Ok(0)
        },
        CanonResult::Broken => {
            push_diag(diags, DiagKind::CanonFailed, e);
            Ok(0)
        },
        CanonResult::Canon(c) => {
            if visited.contains(c) {
                push_diag(diags, DiagKind::AlreadyVisited, c);
                Ok(0)
            } else if node.meta_denied {
                push_diag(diags, DiagKind::PermissionDenied, e);
                Ok(0)
            } else {
                match &node.kind {
                    NodeKind::Special => {
                        push_diag(diags, DiagKind::SpecialFile, e);
                        Ok(0)
                    },
                    NodeKind::File { .. } => {
                        let res = walk_node_x(fs, cfg, e, depth, visited, diags, lines);
                        emit_line(
                            cfg,
                            e,
                            res,
                            lines,
                            Ghost(walk_node(*fs, *cfg, e as int, depth as int, old(visited)@)),
                            Ghost(old(lines)@),
                        )
                    },
                    NodeKind::Dir { .. } => {
                        let res = walk_dir_x(fs, cfg, e, depth + 1, visited, diags, lines);
                        emit_line(
                            cfg,
                            e,
                            res,
                            lines,
                            Ghost(walk_dir(*fs, *cfg, e as int, depth as int + 1, old(visited)@)),
                            Ghost(old(lines)@),
                        )
                    },
                    NodeKind::Symlink { target, .. } => {
                        if link_is_dir_x(fs, target) && !cfg.follow_symlinks {
                            push_diag(diags, DiagKind::SymlinkSkipped, e);
                            Ok(0)
                        } else {
                            let res = walk_node_x(fs, cfg, e, depth, visited, diags, lines);
                            emit_line(
                                cfg,
                                e,
                                res,
                                lines,
                                Ghost(walk_node(*fs, *cfg, e as int, depth as int, old(visited)@)),
                                Ghost(old(lines)@),
                            )
                        }
                    },
                }
            }
        },
    }
}

/// Appends the breakdown line for entry `e` when configured and the step
/// below did not abort; hands the result through.
fn emit_line(
    cfg: &TraversalConfig,
    e: usize,
    res: Result<u64, FatalIo>,
    lines: &mut Vec<BreakdownLine>,
    sub: Ghost<WalkOut>,
    lines0: Ghost<Seq<BreakdownLine>>,
) -> (r: Result<u64, FatalIo>)
    requires
        old(lines)@ == lines0@ + sub@.lines,
        match res {
            Result::Ok(t) => sub@.fatal is None && t == sat64(sub@.total),
            Result::Err(f) => sub@.fatal == Some(f.node),
        },
    ensures
        r == res,
        final(lines)@ == lines0@ + crate::walk::with_line(*cfg, e, sub@).lines,
{
    if cfg.show_breakdown {
        match res {
            Ok(sz) => {
                lines.push(BreakdownLine { node: e, size: sz });
                proof {
                    assert(lines@ =~= lines0@ + crate::walk::with_line(*cfg, e, sub@).lines);
                }
            },
            Err(_) => {},
        }
    }
    res
}

/// Runs one whole scan: walks the tree rooted at `root` at depth zero with
/// a fresh visited set. Diagnostics and breakdown lines are appended in
/// traversal order; the returned count is the clamped byte total, or the
/// directory whose listing failed fatally.
pub fn compute_size(
    fs: &FsModel,
    cfg: &TraversalConfig,
    root: usize,
    diags: &mut Vec<Diagnostic>,
    lines: &mut Vec<BreakdownLine>,
) -> (r: Result<u64, FatalIo>)
    requires
        fs.wf(),
        (root as int) < fs.nodes@.len(),
    ensures
        ({
            let out = scan_spec(*fs, *cfg, root as int);
            &&& final(diags)@ == old(diags)@ + out.diags
            &&& final(lines)@ == old(lines)@ + out.lines
            &&& match r {
                Result::Ok(t) => out.fatal is None && t == sat64(out.total),
                Result::Err(f) => out.fatal == Some(f.node),
            }
        }),
{
    let mut visited = VisitedIds::new(fs.nodes.len());
    walk_dir_x(fs, cfg, root, 0, &mut visited, diags, lines)
}

} // verus!
