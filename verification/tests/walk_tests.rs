use dirsize::config::TraversalConfig;
use dirsize::engine::compute_size;
use dirsize::format::human_readable_size;
use dirsize::model::{FsModel, LinkTarget, ListOutcome, Node, NodeKind};
use dirsize::walk::{BreakdownLine, DiagKind, Diagnostic};

fn file(len: u64) -> Node {
    Node {
        kind: NodeKind::File { len },
        meta_denied: false,
        canon_denied: false,
        canon_broken: false,
    }
}

fn dir(entries: Vec<usize>) -> Node {
    Node {
        kind: NodeKind::Dir { len: 4096, entries, list: ListOutcome::Listed },
        meta_denied: false,
        canon_denied: false,
        canon_broken: false,
    }
}

fn dir_listing(entries: Vec<usize>, list: ListOutcome) -> Node {
    Node {
        kind: NodeKind::Dir { len: 4096, entries, list },
        meta_denied: false,
        canon_denied: false,
        canon_broken: false,
    }
}

fn symlink(len: u64, target: LinkTarget) -> Node {
    Node {
        kind: NodeKind::Symlink { len, target },
        meta_denied: false,
        canon_denied: false,
        canon_broken: false,
    }
}

fn special() -> Node {
    Node {
        kind: NodeKind::Special,
        meta_denied: false,
        canon_denied: false,
        canon_broken: false,
    }
}

fn defaults() -> TraversalConfig {
    TraversalConfig::new()
}

fn scan(fs: &FsModel, cfg: &TraversalConfig) -> (Result<u64, usize>, Vec<Diagnostic>, Vec<BreakdownLine>) {
    assert!(fs.is_wf());
    let mut diags = Vec::new();
    let mut lines = Vec::new();
    let r = compute_size(fs, cfg, 0, &mut diags, &mut lines);
    (r.map_err(|f| f.node), diags, lines)
}

#[test]
fn two_files_in_nested_dirs() {
    // root/{a.txt(100B), sub/{b.txt(2048B)}}
    let fs = FsModel { nodes: vec![dir(vec![1, 2]), file(100), dir(vec![3]), file(2048)] };
    let (r, diags, lines) = scan(&fs, &defaults());
    assert_eq!(r, Ok(2148));
    assert_eq!(human_readable_size(2148), "2.10 KB");
    assert!(diags.is_empty());
    assert!(lines.is_empty());
}

#[test]
fn breakdown_lines_per_entry() {
    let fs = FsModel { nodes: vec![dir(vec![1, 2]), file(100), dir(vec![3]), file(2048)] };
    let mut cfg = defaults();
    cfg.show_breakdown = true;
    let (r, _, lines) = scan(&fs, &cfg);
    assert_eq!(r, Ok(2148));
    assert_eq!(
        lines,
        vec![
            BreakdownLine { node: 1, size: 100 },
            BreakdownLine { node: 3, size: 2048 },
            BreakdownLine { node: 2, size: 2048 },
        ]
    );
    assert_eq!(human_readable_size(lines[2].size), "2.00 KB");
}

#[test]
fn symlink_cycle_terminates() {
    // root -> link -> inner; inner holds a link back to root and a file
    let fs = FsModel {
        nodes: vec![
            dir(vec![1, 4]),
            symlink(20, LinkTarget::Resolved(2)),
            dir(vec![3]),
            symlink(20, LinkTarget::Resolved(0)),
            file(10),
        ],
    };
    let mut cfg = defaults();
    cfg.follow_symlinks = true;
    let (r, diags, _) = scan(&fs, &cfg);
    assert_eq!(r, Ok(10));
    assert_eq!(diags, vec![Diagnostic { kind: DiagKind::AlreadyVisited, node: 0 }]);
}

#[test]
fn depth_limit_cuts_subtree() {
    // a file one level past the limit contributes nothing;
    // files at the limit still count
    let fs = FsModel {
        nodes: vec![dir(vec![1, 2]), file(5), dir(vec![3, 5]), dir(vec![4]), file(7), file(9)],
    };
    let mut cfg = defaults();
    cfg.max_depth = 1;
    let (r, diags, _) = scan(&fs, &cfg);
    assert_eq!(r, Ok(14));
    assert_eq!(diags, vec![Diagnostic { kind: DiagKind::DepthLimit, node: 3 }]);
}

#[test]
fn symlinked_dir_skipped_without_flag() {
    let fs = FsModel {
        nodes: vec![dir(vec![1]), symlink(20, LinkTarget::Resolved(2)), dir(vec![3]), file(50)],
    };
    let (r, diags, _) = scan(&fs, &defaults());
    assert_eq!(r, Ok(0));
    assert_eq!(diags, vec![Diagnostic { kind: DiagKind::SymlinkSkipped, node: 1 }]);
}

#[test]
fn symlinked_dir_counted_once_with_flag() {
    // two links lead to the same directory: it is counted exactly once
    let fs = FsModel {
        nodes: vec![
            dir(vec![1, 4]),
            symlink(20, LinkTarget::Resolved(2)),
            dir(vec![3]),
            file(50),
            symlink(20, LinkTarget::Resolved(2)),
        ],
    };
    let mut cfg = defaults();
    cfg.follow_symlinks = true;
    let (r, diags, _) = scan(&fs, &cfg);
    assert_eq!(r, Ok(50));
    assert_eq!(diags, vec![Diagnostic { kind: DiagKind::AlreadyVisited, node: 2 }]);
}

#[test]
fn denied_entry_leaves_siblings_counted() {
    let mut denied = file(100);
    denied.meta_denied = true;
    let fs = FsModel { nodes: vec![dir(vec![1, 2, 3]), file(5), denied, file(7)] };
    let (r, diags, _) = scan(&fs, &defaults());
    assert_eq!(r, Ok(12));
    assert_eq!(diags, vec![Diagnostic { kind: DiagKind::PermissionDenied, node: 2 }]);
}

#[test]
fn denied_listing_contributes_nothing() {
    let fs = FsModel {
        nodes: vec![
            dir(vec![1, 3]),
            dir_listing(vec![2], ListOutcome::Denied),
            file(100),
            file(3),
        ],
    };
    let (r, diags, _) = scan(&fs, &defaults());
    assert_eq!(r, Ok(3));
    assert_eq!(diags, vec![Diagnostic { kind: DiagKind::PermissionDenied, node: 1 }]);
}

#[test]
fn fatal_listing_aborts() {
    let fs = FsModel {
        nodes: vec![dir(vec![1, 3]), dir_listing(vec![2], ListOutcome::Fatal), file(100), file(3)],
    };
    let (r, _, _) = scan(&fs, &defaults());
    assert_eq!(r, Err(1));
}

#[test]
fn broken_link_followed_is_a_warning() {
    let fs = FsModel { nodes: vec![dir(vec![1]), symlink(17, LinkTarget::Broken)] };
    let mut cfg = defaults();
    cfg.follow_symlinks = true;
    let (r, diags, _) = scan(&fs, &cfg);
    assert_eq!(r, Ok(0));
    assert_eq!(diags, vec![Diagnostic { kind: DiagKind::CanonFailed, node: 1 }]);
}

#[test]
fn unfollowed_file_link_measured_by_link_length() {
    // with following off a symlink to a file contributes its own
    // metadata length, not the target's
    let fs = FsModel {
        nodes: vec![dir(vec![1]), symlink(99, LinkTarget::Resolved(2)), file(1000)],
    };
    let (r, diags, _) = scan(&fs, &defaults());
    assert_eq!(r, Ok(99));
    assert!(diags.is_empty());
}

#[test]
fn followed_file_link_measured_by_target() {
    let fs = FsModel {
        nodes: vec![dir(vec![1]), symlink(99, LinkTarget::Resolved(2)), file(1000)],
    };
    let mut cfg = defaults();
    cfg.follow_symlinks = true;
    let (r, _, _) = scan(&fs, &cfg);
    assert_eq!(r, Ok(1000));
}

#[test]
fn followed_dir_link_at_limit_measured_as_file() {
    let fs = FsModel {
        nodes: vec![dir(vec![1]), symlink(20, LinkTarget::Resolved(2)), dir(vec![3]), file(5)],
    };
    let mut cfg = defaults();
    cfg.follow_symlinks = true;
    cfg.max_depth = 0;
    let (r, _, _) = scan(&fs, &cfg);
    assert_eq!(r, Ok(4096));
}

#[test]
fn special_file_skipped() {
    let fs = FsModel { nodes: vec![dir(vec![1, 2]), special(), file(4)] };
    let (r, diags, _) = scan(&fs, &defaults());
    assert_eq!(r, Ok(4));
    assert_eq!(diags, vec![Diagnostic { kind: DiagKind::SpecialFile, node: 1 }]);
}

#[test]
fn two_names_for_one_dir_counted_once() {
    let fs = FsModel { nodes: vec![dir(vec![1, 1]), dir(vec![2]), file(8)] };
    let (r, diags, _) = scan(&fs, &defaults());
    assert_eq!(r, Ok(8));
    assert_eq!(diags, vec![Diagnostic { kind: DiagKind::AlreadyVisited, node: 1 }]);
}

#[test]
fn totals_saturate_instead_of_wrapping() {
    let fs = FsModel { nodes: vec![dir(vec![1, 2]), file(u64::MAX), file(100)] };
    let (r, _, _) = scan(&fs, &defaults());
    assert_eq!(r, Ok(u64::MAX));
}

#[test]
fn no_breakdown_line_for_skipped_entry() {
    let fs = FsModel {
        nodes: vec![dir(vec![1, 2]), symlink(20, LinkTarget::Resolved(3)), file(6), dir(vec![])],
    };
    let mut cfg = defaults();
    cfg.show_breakdown = true;
    let (r, _, lines) = scan(&fs, &cfg);
    assert_eq!(r, Ok(6));
    assert_eq!(lines, vec![BreakdownLine { node: 2, size: 6 }]);
}

#[test]
fn model_well_formedness_check() {
    let good = FsModel { nodes: vec![dir(vec![1]), file(1)] };
    assert!(good.is_wf());
    let bad = FsModel { nodes: vec![dir(vec![7]), file(1)] };
    assert!(!bad.is_wf());
    let bad_link = FsModel { nodes: vec![dir(vec![1]), symlink(1, LinkTarget::Resolved(9))] };
    assert!(!bad_link.is_wf());
}

#[test]
fn additivity_of_immediate_children() {
    // the total of a directory equals the sum of what the same procedure
    // computes for each immediate child on a clean tree
    let fs = FsModel {
        nodes: vec![dir(vec![1, 2, 4]), file(100), dir(vec![3]), file(2048), dir(vec![5]), file(6)],
    };
    let cfg = defaults();
    let whole = scan(&fs, &cfg).0.unwrap();
    let mut diags = Vec::new();
    let mut lines = Vec::new();
    let sub_a = compute_size(&fs, &cfg, 2, &mut diags, &mut lines).unwrap();
    let sub_b = compute_size(&fs, &cfg, 4, &mut diags, &mut lines).unwrap();
    assert_eq!(whole, 100 + sub_a + sub_b);
    assert_eq!(sub_a, 2048);
    assert_eq!(sub_b, 6);
}
