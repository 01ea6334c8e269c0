use dirsize::config::TraversalConfig;
use dirsize::engine::add_saturating;
use dirsize::policy::{
    classify_node, depth_exceeded, may_descend_link, skip_symlinked_dir, NodeAction,
};
use dirsize::visited::VisitedSet;

#[test]
fn default_configuration() {
    let cfg = TraversalConfig::new();
    assert!(!cfg.follow_symlinks);
    assert!(!cfg.show_breakdown);
    assert_eq!(cfg.max_depth, 10);
}

#[test]
fn classify_node_policy() {
    let off = TraversalConfig::new();
    let mut on = TraversalConfig::new();
    on.follow_symlinks = true;
    assert_eq!(classify_node(false, false, false, &off), NodeAction::SkipSpecial);
    assert_eq!(classify_node(true, false, false, &off), NodeAction::Measure);
    assert_eq!(classify_node(false, true, false, &off), NodeAction::Measure);
    assert_eq!(classify_node(false, false, true, &off), NodeAction::Measure);
    assert_eq!(classify_node(false, false, true, &on), NodeAction::FollowLink);
}

#[test]
fn symlinked_dir_skip_policy() {
    let off = TraversalConfig::new();
    let mut on = TraversalConfig::new();
    on.follow_symlinks = true;
    assert!(skip_symlinked_dir(true, &off));
    assert!(!skip_symlinked_dir(true, &on));
    assert!(!skip_symlinked_dir(false, &off));
}

#[test]
fn depth_gates() {
    let mut cfg = TraversalConfig::new();
    cfg.max_depth = 3;
    assert!(!depth_exceeded(3, &cfg));
    assert!(depth_exceeded(4, &cfg));
    assert!(may_descend_link(2, &cfg));
    assert!(!may_descend_link(3, &cfg));
}

#[test]
fn saturating_totals() {
    assert_eq!(add_saturating(1, 2), 3);
    assert_eq!(add_saturating(u64::MAX, 1), u64::MAX);
    assert_eq!(add_saturating(u64::MAX - 1, 1), u64::MAX);
}

#[test]
fn visited_set_insert_and_contains() {
    let mut v = VisitedSet::new();
    assert_eq!(v.len(), 0);
    let a = String::from("/home/a");
    let b = String::from("/home/b");
    assert!(!v.contains(&a));
    v.insert(a.clone());
    assert!(v.contains(&a));
    assert!(!v.contains(&b));
    assert_eq!(v.len(), 1);
    v.insert(b.clone());
    assert_eq!(v.len(), 2);
    assert!(v.contains(&b));
}

#[test]
fn visited_set_keeps_one_copy() {
    let mut v = VisitedSet::new();
    let a = String::from("/srv/x");
    v.insert(a.clone());
    v.insert(a.clone());
    assert_eq!(v.len(), 1);
    assert!(v.contains(&a));
}
