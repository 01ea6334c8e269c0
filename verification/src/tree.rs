//! Clean trees and the additivity theorem.
//!
//! A clean tree has no failures, no symlinks and one parent per node. For
//! such trees the walk is pure summation: [`theorem_clean_dir_total`] shows
//! the total of a directory is the sum over its children of what the same
//! procedure computes, with no diagnostics and nothing counted twice.
use vstd::prelude::*;
use crate::config::TraversalConfig;
use crate::model::{node_entries, FsModel, NodeKind};
use crate::walk::{ids, scan_spec, walk_dir, walk_entry, walk_upto, Diagnostic};

verus! {

broadcast use vstd::set::group_set_axioms;

/// A node of a clean tree: every metadata call succeeds, and the node is a
/// regular file or a listed directory whose entries point strictly forward.
pub open spec fn clean_node(fs: FsModel, i: int) -> bool {
    let node = fs.nodes@[i];
    &&& !node.meta_denied
    &&& !node.canon_denied
    &&& !node.canon_broken
    &&& match node.kind {
        NodeKind::File { .. } => true,
        NodeKind::Dir { entries, list, .. } => {
            &&& list is Listed
            &&& forall|k: int|
                0 <= k < entries@.len() ==> i < (#[trigger] entries@[k]) < fs.nodes@.len()
        },
        _ => false,
    }
}

/// A clean tree: no failures anywhere, no symlinks or special nodes, and no
/// node is named by two directory entries — each node has at most one
/// parent, so the directories form a forest.
pub open spec fn clean_tree(fs: FsModel) -> bool {
    &&& forall|i: int| 0 <= i < fs.nodes@.len() ==> clean_node(fs, i)
    &&& forall|i1: int, k1: int, i2: int, k2: int|
        (0 <= i1 < fs.nodes@.len() && 0 <= k1 < node_entries(fs.nodes@[i1]).len() && 0 <= i2
            < fs.nodes@.len() && 0 <= k2 < node_entries(fs.nodes@[i2]).len() && (i1 != i2 || k1
            != k2)) ==> (#[trigger] node_entries(fs.nodes@[i1])[k1]) != (#[trigger] node_entries(
            fs.nodes@[i2],
        )[k2])
}

/// The bytes beneath a node of a clean tree: a file counts its length, a
/// directory the sum over its children.
pub open spec fn tree_size(fs: FsModel, id: int) -> int
    decreases fs.nodes@.len() - id, 1int, 0int,
{
    if !(0 <= id < fs.nodes@.len()) {
        0
    } else {
        match fs.nodes@[id].kind {
            NodeKind::File { len } => len as int,
            NodeKind::Dir { entries, .. } => tree_size_sum(fs, id, entries@, entries@.len() as int),
            _ => 0,
        }
    }
}

/// The sum of [`tree_size`] over the first `k` entries of the directory `d`.
pub open spec fn tree_size_sum(fs: FsModel, d: int, entries: Seq<usize>, k: int) -> int
    decreases fs.nodes@.len() - d, 0int, k,
{
    if k <= 0 || k > entries.len() {
        0
    } else {
        let e = entries[k - 1] as int;
        tree_size_sum(fs, d, entries, k - 1) + if d < e < fs.nodes@.len() {
            tree_size(fs, e)
        } else {
            0
        }
    }
}

/// The set of nodes beneath a node, the node itself included.
pub open spec fn subtree(fs: FsModel, id: int) -> Set<int>
    decreases fs.nodes@.len() - id, 1int, 0int,
{
    if !(0 <= id < fs.nodes@.len()) {
        Set::empty()
    } else {
        match fs.nodes@[id].kind {
            NodeKind::Dir { entries, .. } => subtree_list(
                fs,
                id,
                entries@,
                entries@.len() as int,
            ).insert(id),
            _ => Set::<int>::empty().insert(id),
        }
    }
}

/// The union of the subtrees of the first `k` entries of directory `d`.
pub open spec fn subtree_list(fs: FsModel, d: int, entries: Seq<usize>, k: int) -> Set<int>
    decreases fs.nodes@.len() - d, 0int, k,
{
    if k <= 0 || k > entries.len() {
        Set::empty()
    } else {
        let e = entries[k - 1] as int;
        subtree_list(fs, d, entries, k - 1).union(
            if d < e < fs.nodes@.len() {
                subtree(fs, e)
            } else {
                Set::empty()
            },
        )
    }
}

/// Every node of a subtree lies at or after its root.
pub proof fn lemma_subtree_range(fs: FsModel, id: int)
    ensures
        forall|x: int| #[trigger] subtree(fs, id).contains(x) ==> id <= x < fs.nodes@.len(),
    decreases fs.nodes@.len() - id, 1int, 0int,
{
    if 0 <= id < fs.nodes@.len() {
        match fs.nodes@[id].kind {
            NodeKind::Dir { entries, .. } => {
                lemma_subtree_list_range(fs, id, entries@, entries@.len() as int);
            },
            _ => {},
        }
    }
    assert forall|x: int| #[trigger] subtree(fs, id).contains(x) implies id <= x
        < fs.nodes@.len() by {
        if 0 <= id < fs.nodes@.len() {
            match fs.nodes@[id].kind {
                NodeKind::Dir { entries, .. } => {
                    if x != id {
                        assert(subtree_list(fs, id, entries@, entries@.len() as int).contains(x));
                    }
                },
                _ => {
                    assert(x == id);
                },
            }
        }
    }
}

/// Every node of an entry's subtree lies strictly after the directory.
pub proof fn lemma_subtree_list_range(fs: FsModel, d: int, entries: Seq<usize>, k: int)
    ensures
        forall|x: int|
            #[trigger] subtree_list(fs, d, entries, k).contains(x) ==> d < x < fs.nodes@.len(),
    decreases fs.nodes@.len() - d, 0int, k,
{
    if 0 < k <= entries.len() {
        lemma_subtree_list_range(fs, d, entries, k - 1);
        let e = entries[k - 1] as int;
        if d < e < fs.nodes@.len() {
            lemma_subtree_range(fs, e);
        }
        assert forall|x: int| #[trigger] subtree_list(fs, d, entries, k).contains(x) implies d < x
            < fs.nodes@.len() by {
            if subtree_list(fs, d, entries, k - 1).contains(x) {
            } else {
                assert(d < e < fs.nodes@.len() && subtree(fs, e).contains(x));
            }
        }
    }
}

/// A node belongs to its own subtree.
pub proof fn lemma_subtree_self(fs: FsModel, id: int)
    requires
        0 <= id < fs.nodes@.len(),
    ensures
        subtree(fs, id).contains(id),
{
}

/// An entry's whole subtree sits inside any long enough prefix union.
pub proof fn lemma_list_covers_entry(fs: FsModel, d: int, entries: Seq<usize>, j: int, k: int)
    requires
        0 <= j < k <= entries.len(),
        d < (entries[j] as int) < fs.nodes@.len(),
    ensures
        subtree(fs, entries[j] as int).subset_of(subtree_list(fs, d, entries, k)),
    decreases k,
{
    if j == k - 1 {
    } else {
        lemma_list_covers_entry(fs, d, entries, j, k - 1);
    }
}

/// Every node of a prefix union comes from some entry's subtree.
pub proof fn lemma_list_elem(fs: FsModel, d: int, entries: Seq<usize>, k: int, x: int)
    requires
        subtree_list(fs, d, entries, k).contains(x),
        k <= entries.len(),
    ensures
        exists|j: int|
            0 <= j < k && d < (#[trigger] entries[j] as int) < fs.nodes@.len() && subtree(
                fs,
                entries[j] as int,
            ).contains(x),
    decreases k,
{
    let e = entries[k - 1] as int;
    if d < e < fs.nodes@.len() && subtree(fs, e).contains(x) {
        assert(0 <= k - 1 < k && d < (entries[k - 1] as int) < fs.nodes@.len() && subtree(
            fs,
            entries[k - 1] as int,
        ).contains(x));
    } else {
        lemma_list_elem(fs, d, entries, k - 1, x);
        let j = choose|j: int|
            0 <= j < k - 1 && d < (#[trigger] entries[j] as int) < fs.nodes@.len() && subtree(
                fs,
                entries[j] as int,
            ).contains(x);
        assert(0 <= j < k && d < (entries[j] as int) < fs.nodes@.len() && subtree(
            fs,
            entries[j] as int,
        ).contains(x));
    }
}

/// Every proper member of a subtree is named by an entry of some directory
/// of that subtree.
pub proof fn lemma_subtree_parent(fs: FsModel, id: int, x: int)
    requires
        0 <= id < fs.nodes@.len(),
        subtree(fs, id).contains(x),
        x != id,
    ensures
        exists|p: int, j: int|
            {
                &&& subtree(fs, id).contains(p)
                &&& 0 <= p < fs.nodes@.len()
                &&& 0 <= j < node_entries(fs.nodes@[p]).len()
                &&& (#[trigger] node_entries(fs.nodes@[p])[j] as int) == x
            },
    decreases fs.nodes@.len() - id, 1int, 0int,
{
    match fs.nodes@[id].kind {
        NodeKind::Dir { entries, .. } => {
            let n = entries@.len() as int;
            assert(subtree_list(fs, id, entries@, n).contains(x));
            lemma_list_elem(fs, id, entries@, n, x);
            let j = choose|j: int|
                0 <= j < n && id < (#[trigger] entries@[j] as int) < fs.nodes@.len() && subtree(
                    fs,
                    entries@[j] as int,
                ).contains(x);
            let e = entries@[j] as int;
            if x == e {
                assert(node_entries(fs.nodes@[id])[j] as int == x);
                assert(subtree(fs, id).contains(id));
            } else {
                lemma_subtree_parent(fs, e, x);
                let (p, j2): (int, int) = choose|p: int, j2: int|
                    {
                        &&& subtree(fs, e).contains(p)
                        &&& 0 <= p < fs.nodes@.len()
                        &&& 0 <= j2 < node_entries(fs.nodes@[p]).len()
                        &&& (#[trigger] node_entries(fs.nodes@[p])[j2] as int) == x
                    };
                lemma_list_covers_entry(fs, id, entries@, j, n);
                assert(subtree(fs, id).contains(p));
            }
        },
        _ => {
            assert(false);
        },
    }
}

/// Two subtrees of a clean tree overlap only when one root lies inside the
/// other subtree.
pub proof fn lemma_subtree_overlap(fs: FsModel, a: int, b: int, x: int)
    requires
        clean_tree(fs),
        0 <= a < fs.nodes@.len(),
        0 <= b < fs.nodes@.len(),
        subtree(fs, a).contains(x),
        subtree(fs, b).contains(x),
        0 <= x,
    ensures
        subtree(fs, a).contains(b) || subtree(fs, b).contains(a),
    decreases x,
{
    if x == a {
        assert(subtree(fs, b).contains(a));
    } else if x == b {
        assert(subtree(fs, a).contains(b));
    } else {
        lemma_subtree_parent(fs, a, x);
        lemma_subtree_parent(fs, b, x);
        let (pa, ja): (int, int) = choose|pa: int, ja: int|
            {
                &&& subtree(fs, a).contains(pa)
                &&& 0 <= pa < fs.nodes@.len()
                &&& 0 <= ja < node_entries(fs.nodes@[pa]).len()
                &&& (#[trigger] node_entries(fs.nodes@[pa])[ja] as int) == x
            };
        let (pb, jb): (int, int) = choose|pb: int, jb: int|
            {
                &&& subtree(fs, b).contains(pb)
                &&& 0 <= pb < fs.nodes@.len()
                &&& 0 <= jb < node_entries(fs.nodes@[pb]).len()
                &&& (#[trigger] node_entries(fs.nodes@[pb])[jb] as int) == x
            };
        assert(pa == pb && ja == jb) by {
            if pa != pb || ja != jb {
                assert(node_entries(fs.nodes@[pa])[ja] != node_entries(fs.nodes@[pb])[jb]);
            }
        }
        let p = pa;
        assert(clean_node(fs, p));
        assert(p < x) by {
            match fs.nodes@[p].kind {
                NodeKind::Dir { entries, .. } => {
                    assert(p < (entries@[ja] as int));
                },
                _ => {
                    assert(node_entries(fs.nodes@[p]).len() == 0);
                },
            }
        }
        if p == a {
            assert(subtree(fs, b).contains(a));
        } else if p == b {
            assert(subtree(fs, a).contains(b));
        } else {
            lemma_subtree_range(fs, a);
            lemma_subtree_overlap(fs, a, b, p);
        }
    }
}

/// In a clean tree, the subtrees of two different entries of one directory
/// share nothing.
pub proof fn lemma_sibling_disjoint(fs: FsModel, d: int, entries: Seq<usize>, j1: int, j2: int)
    requires
        clean_tree(fs),
        0 <= d < fs.nodes@.len(),
        fs.nodes@[d].kind is Dir,
        entries == node_entries(fs.nodes@[d]),
        0 <= j1 < entries.len(),
        0 <= j2 < entries.len(),
        j1 != j2,
    ensures
        forall|x: int|
            #[trigger] subtree(fs, entries[j1] as int).contains(x) ==> !subtree(
                fs,
                entries[j2] as int,
            ).contains(x),
{
    let e1 = entries[j1] as int;
    let e2 = entries[j2] as int;
    assert(clean_node(fs, d));
    assert(d < e1 < fs.nodes@.len() && d < e2 < fs.nodes@.len());
    assert(e1 != e2) by {
        assert(node_entries(fs.nodes@[d])[j1] != node_entries(fs.nodes@[d])[j2]);
    }
    assert forall|x: int| #[trigger] subtree(fs, e1).contains(x) implies !subtree(
        fs,
        e2,
    ).contains(x) by {
        if subtree(fs, e2).contains(x) {
            lemma_subtree_range(fs, e1);
            lemma_subtree_range(fs, e2);
            lemma_subtree_overlap(fs, e1, e2, x);
            if subtree(fs, e2).contains(e1) {
                lemma_one_parent_entry(fs, d, entries, j1, e2);
            } else {
                lemma_one_parent_entry(fs, d, entries, j2, e1);
            }
        }
    }
}

/// In a clean tree, an entry of directory `d` never sits properly inside
/// the subtree of another node strictly after `d`: the edge reaching it
/// there would be a second parent.
proof fn lemma_one_parent_entry(fs: FsModel, d: int, entries: Seq<usize>, j: int, other: int)
    requires
        clean_tree(fs),
        0 <= d < fs.nodes@.len(),
        fs.nodes@[d].kind is Dir,
        entries == node_entries(fs.nodes@[d]),
        0 <= j < entries.len(),
        d < other < fs.nodes@.len(),
        (entries[j] as int) != other,
    ensures
        !subtree(fs, other).contains(entries[j] as int),
{
    let e = entries[j] as int;
    assert(clean_node(fs, d));
    if subtree(fs, other).contains(e) {
        lemma_subtree_parent(fs, other, e);
        let (p, j2): (int, int) = choose|p: int, j2: int|
            {
                &&& subtree(fs, other).contains(p)
                &&& 0 <= p < fs.nodes@.len()
                &&& 0 <= j2 < node_entries(fs.nodes@[p]).len()
                &&& (#[trigger] node_entries(fs.nodes@[p])[j2] as int) == e
            };
        assert(p == d && j2 == j) by {
            if p != d || j2 != j {
                assert(node_entries(fs.nodes@[p])[j2] != node_entries(fs.nodes@[d])[j]);
            }
        }
        lemma_subtree_range(fs, other);
        assert(other <= d);
    }
}


/// Additivity: for a clean tree, walking a directory within the depth
/// budget counts exactly the bytes of the tree beneath it — by definition
/// of [`tree_size`], the sum over its immediate children of what the same
/// procedure computes for each — produces no diagnostics, never aborts, and
/// marks only nodes of that subtree visited.
pub proof fn theorem_clean_dir_total(
    fs: FsModel,
    cfg: TraversalConfig,
    id: int,
    depth: int,
    visited: Set<int>,
)
    requires
        clean_tree(fs),
        0 <= id < fs.nodes@.len(),
        fs.nodes@[id].kind is Dir,
        0 <= depth,
        depth + fs.nodes@.len() - id <= cfg.max_depth as int + 1,
        visited.subset_of(ids(fs)),
        forall|x: int| #[trigger] subtree(fs, id).contains(x) ==> !visited.contains(x),
    ensures
        ({
            let out = walk_dir(fs, cfg, id, depth, visited);
            &&& out.total == tree_size(fs, id)
            &&& out.fatal is None
            &&& out.diags == Seq::<Diagnostic>::empty()
            &&& visited.subset_of(out.visited)
            &&& out.visited.subset_of(visited.union(subtree(fs, id)))
        }),
    decreases fs.nodes@.len() - id, 1int, 0int,
{
    assert(clean_node(fs, id));
    lemma_subtree_self(fs, id);
    match fs.nodes@[id].kind {
        NodeKind::Dir { entries, list, .. } => {
            let v2 = visited.insert(id);
            let n = entries@.len() as int;
            lemma_subtree_list_range(fs, id, entries@, n);
            assert forall|x: int|
                #[trigger] subtree_list(fs, id, entries@, n).contains(x) implies !v2.contains(
                x,
            ) by {
                assert(subtree(fs, id).contains(x));
            }
            assert(v2.subset_of(ids(fs))) by {
                vstd::set_lib::lemma_int_range(0, fs.nodes@.len() as int);
            }
            theorem_clean_entries_total(fs, cfg, id, entries@, n, depth, v2);
            let up = walk_upto(fs, cfg, entries@, n, depth, v2);
            assert(walk_dir(fs, cfg, id, depth, visited) == up);
            assert(up.visited.subset_of(visited.union(subtree(fs, id)))) by {
                assert forall|x: int| #[trigger] up.visited.contains(x) implies visited.union(
                    subtree(fs, id),
                ).contains(x) by {
                    if !v2.contains(x) {
                        assert(subtree_list(fs, id, entries@, n).contains(x));
                    }
                }
            }
        },
        _ => {},
    }
}

/// Additivity over a directory's entries: walking the first `k` entries of
/// a clean directory sums their tree sizes, with no diagnostics and no
/// abort, marking only nodes beneath those entries.
pub proof fn theorem_clean_entries_total(
    fs: FsModel,
    cfg: TraversalConfig,
    d: int,
    entries: Seq<usize>,
    k: int,
    depth: int,
    v2: Set<int>,
)
    requires
        clean_tree(fs),
        0 <= d < fs.nodes@.len(),
        fs.nodes@[d].kind is Dir,
        entries == node_entries(fs.nodes@[d]),
        0 <= k <= entries.len(),
        0 <= depth,
        depth + fs.nodes@.len() - d <= cfg.max_depth as int + 1,
        v2.subset_of(ids(fs)),
        forall|x: int|
            #[trigger] subtree_list(fs, d, entries, entries.len() as int).contains(x)
                ==> !v2.contains(x),
    ensures
        ({
            let up = walk_upto(fs, cfg, entries, k, depth, v2);
            &&& up.total == tree_size_sum(fs, d, entries, k)
            &&& up.fatal is None
            &&& up.diags == Seq::<Diagnostic>::empty()
            &&& v2.subset_of(up.visited)
            &&& up.visited.subset_of(v2.union(subtree_list(fs, d, entries, k)))
        }),
    decreases fs.nodes@.len() - d, 0int, k,
{
    if k <= 0 {
    } else {
        theorem_clean_entries_total(fs, cfg, d, entries, k - 1, depth, v2);
        let prev = walk_upto(fs, cfg, entries, k - 1, depth, v2);
        let e = entries[k - 1] as int;
        assert(clean_node(fs, d));
        assert(d < e < fs.nodes@.len());
        assert(clean_node(fs, e));
        lemma_subtree_self(fs, e);
        lemma_subtree_range(fs, e);
        lemma_subtree_list_range(fs, d, entries, k - 1);
        lemma_list_covers_entry(fs, d, entries, k - 1, entries.len() as int);
        vstd::set_lib::lemma_int_range(0, fs.nodes@.len() as int);
        let pv = v2.union(prev.visited.intersect(ids(fs)));
        assert(pv =~= prev.visited) by {
            assert forall|x: int| #[trigger] prev.visited.contains(x) implies ids(fs).contains(
                x,
            ) by {
                if !v2.contains(x) {
                    assert(subtree_list(fs, d, entries, k - 1).contains(x));
                }
            }
        }
        assert forall|x: int| #[trigger] subtree(fs, e).contains(x) implies !pv.contains(x) by {
            assert(subtree_list(fs, d, entries, entries.len() as int).contains(x));
            if prev.visited.contains(x) && !v2.contains(x) {
                assert(subtree_list(fs, d, entries, k - 1).contains(x));
                lemma_list_elem(fs, d, entries, k - 1, x);
                let j = choose|j: int|
                    0 <= j < k - 1 && d < (#[trigger] entries[j] as int) < fs.nodes@.len()
                        && subtree(fs, entries[j] as int).contains(x);
                lemma_sibling_disjoint(fs, d, entries, j, k - 1);
            }
        }
        assert(!pv.contains(e));
        match fs.nodes@[e].kind {
            NodeKind::File { len } => {
                let cur = walk_entry(fs, cfg, e, depth, pv);
                assert(cur.total == len as int && cur.visited == pv && cur.diags
                    == Seq::<Diagnostic>::empty() && cur.fatal is None);
                assert(tree_size(fs, e) == len as int);
            },
            NodeKind::Dir { .. } => {
                theorem_clean_dir_total(fs, cfg, e, depth + 1, pv);
            },
            _ => {
                assert(false);
            },
        }
        let cur = walk_entry(fs, cfg, e, depth, pv);
        let up = walk_upto(fs, cfg, entries, k, depth, v2);
        assert(up.total == prev.total + cur.total);
        assert(up.diags =~= Seq::<Diagnostic>::empty());
        assert(up.visited.subset_of(v2.union(subtree_list(fs, d, entries, k)))) by {
            assert forall|x: int| #[trigger] cur.visited.contains(x) implies v2.union(
                subtree_list(fs, d, entries, k),
            ).contains(x) by {
                if !pv.contains(x) {
                    assert(subtree(fs, e).contains(x));
                } else if !v2.contains(x) {
                    assert(subtree_list(fs, d, entries, k - 1).contains(x));
                }
            }
        }
    }
}


/// The whole-run corollary: scanning the root of a clean tree that fits
/// inside the depth budget reports exactly the bytes of the tree, silently
/// and without aborting.
pub proof fn theorem_clean_scan_total(fs: FsModel, cfg: TraversalConfig, root: int)
    requires
        clean_tree(fs),
        0 <= root < fs.nodes@.len(),
        fs.nodes@[root].kind is Dir,
        fs.nodes@.len() - root <= cfg.max_depth as int + 1,
    ensures
        scan_spec(fs, cfg, root).total == tree_size(fs, root),
        (scan_spec(fs, cfg, root).fatal is None),
        scan_spec(fs, cfg, root).diags == Seq::<Diagnostic>::empty(),
{
    theorem_clean_dir_total(fs, cfg, root, 0, Set::empty());
}

} // verus!
