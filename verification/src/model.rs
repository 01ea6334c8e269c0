use vstd::prelude::*;

verus! {

/// Outcome of resolving a symbolic link one step and canonicalizing the
/// result.
pub enum LinkTarget {
    /// The link resolves to the node with this index.
    Resolved(usize),
    /// Resolving the target is refused for lack of permission.
    Denied,
    /// The target cannot be canonicalized for another reason: a dangling
    /// link.
    Broken,
}

/// Outcome of listing a directory's entries.
pub enum ListOutcome {
    /// The entries can be read.
    Listed,
    /// Listing is refused for lack of permission: the directory contributes
    /// nothing and the walk goes on.
    Denied,
    /// Listing fails with an unexpected error: the whole traversal aborts.
    Fatal,
}

/// What a node is, as unfollowed metadata reports it.
pub enum NodeKind {
    /// A regular file of `len` bytes.
    File { len: u64 },
    /// A directory. `len` is its own metadata length, which counts only when
    /// the directory is measured as a plain file (a followed link held back
    /// by the depth limit); `entries` are the indices of its children.
    Dir { len: u64, entries: Vec<usize>, list: ListOutcome },
    /// A symbolic link; `len` is the link's own metadata length.
    Symlink { len: u64, target: LinkTarget },
    /// A socket, device or pipe: never measured.
    Special,
}

/// One filesystem node together with the failures its metadata calls hit.
/// For a symlink node the canonicalization outcome lives in its
/// [`LinkTarget`], and the two `canon` flags are unused.
pub struct Node {
    pub kind: NodeKind,
    /// Reading unfollowed metadata is refused for lack of permission.
    pub meta_denied: bool,
    /// Canonicalizing the node's path is refused for lack of permission.
    pub canon_denied: bool,
    /// Canonicalizing the node's path fails for another reason.
    pub canon_broken: bool,
}

/// An in-memory picture of a filesystem tree. Each node stands for one
/// canonical path; indices play the role of canonical identity, so two
/// directory entries holding the same index are two names for one node,
/// and a symlink pointing back at an ancestor's index forms a cycle.
pub struct FsModel {
    pub nodes: Vec<Node>,
}

/// The child indices of a directory node; empty for any other kind.
pub open spec fn node_entries(node: Node) -> Seq<usize> {
    match node.kind {
        NodeKind::Dir { entries, .. } => entries@,
        _ => Seq::empty(),
    }
}

/// Every index a node mentions stays inside the model.
pub open spec fn node_wf(node: Node, n: int) -> bool {
    match node.kind {
        NodeKind::Dir { entries, .. } => forall|k: int|
            0 <= k < entries@.len() ==> (#[trigger] entries@[k]) < n,
        NodeKind::Symlink { target, .. } => match target {
            LinkTarget::Resolved(t) => (t as int) < n,
            _ => true,
        },
        _ => true,
    }
}

impl FsModel {
    /// Well-formedness: directory entries and link targets are in range.
    pub open spec fn wf(&self) -> bool {
        forall|i: int|
            0 <= i < self.nodes@.len() ==> node_wf(#[trigger] self.nodes@[i], self.nodes@.len() as int)
    }

    /// Runtime check of [`FsModel::wf`], for models assembled by callers.
    pub fn is_wf(&self) -> (r: bool)
        ensures
            r == self.wf(),
    {
        let n = self.nodes.len();
        let mut i: usize = 0;
        while i < n
            invariant
                n == self.nodes@.len(),
                i <= n,
                forall|j: int| 0 <= j < i ==> node_wf(#[trigger] self.nodes@[j], n as int),
            decreases n - i,
        {
            let node = &self.nodes[i];
            match &node.kind {
                NodeKind::Dir { entries, .. } => {
                    let m = entries.len();
                    let mut k: usize = 0;
                    while k < m
                        invariant
                            i < n,
                            n == self.nodes@.len(),
                            entries@ == node_entries(self.nodes@[i as int]),
                            self.nodes@[i as int].kind is Dir,
                            m == entries@.len(),
                            k <= m,
                            forall|q: int| 0 <= q < k ==> (#[trigger] entries@[q]) < n,
                        decreases m - k,
                    {
                        if entries[k] >= n {
                            proof {
                                assert(!node_wf(self.nodes@[i as int], n as int));
                            }
                            return false;
                        }
                        k += 1;
                    }
                    proof {
                        assert(node_wf(self.nodes@[i as int], n as int));
                    }
                },
                NodeKind::Symlink { target, .. } => {
                    match target {
                        LinkTarget::Resolved(t) => {
                            if *t >= n {
                                proof {
                                    assert(!node_wf(self.nodes@[i as int], n as int));
                                }
                                return false;
                            }
                        },
                        _ => {},
                    }
                },
                _ => {},
            }
            assert(node_wf(self.nodes@[i as int], n as int));
            i += 1;
        }
        true
    }
}

} // verus!
