use prometheus_core::delete::{DeletionReport, REPORT_ERROR_CAP};
use prometheus_core::platform::Platform;
use prometheus_core::tree::{CategoryNode, JunkCategory, JunkItem, JunkTree, TreePosition};

fn p(s: &str) -> Vec<char> {
    s.chars().collect()
}

fn item(path: &str, size: u64) -> JunkItem {
    JunkItem { path: p(path), size, junk_type: p("Test") }
}

#[test]
fn fresh_report_is_empty_and_silent() {
    let report = DeletionReport::new();
    assert_eq!(report.deleted, 0);
    assert_eq!(report.failed, 0);
    assert_eq!(report.protected, 0);
    assert!(report.errors.is_empty());
    assert!(!report.needs_display());
}

#[test]
fn protected_path_is_counted_and_skipped() {
    let mut report = DeletionReport::new();
    let attempt = report.check_path(&p("/home/u/.ssh/id_rsa"), &p("/home/u"), Platform::Linux);
    assert!(!attempt);
    assert_eq!(report.protected, 1);
    assert_eq!(report.deleted, 0);
    assert!(report.needs_display());
}

#[test]
fn successful_deletion_counts_once() {
    let mut report = DeletionReport::new();
    let path = p("/home/u/.cache/fake");
    let attempt = report.check_path(&path, &p("/home/u"), Platform::Linux);
    assert!(attempt);
    report.record_attempt(&path, Ok(()), Platform::Linux);
    assert_eq!(report.deleted, 1);
    assert_eq!(report.failed, 0);
    assert!(!report.needs_display());
}

#[test]
fn failed_deletion_keeps_a_named_message() {
    let mut report = DeletionReport::new();
    let path = p("/home/u/.cache/fake.log");
    report.record_attempt(&path, Err(p("permission denied")), Platform::Linux);
    assert_eq!(report.failed, 1);
    assert_eq!(report.errors.len(), 1);
    assert_eq!(report.errors[0], p("fake.log: permission denied"));
    assert!(report.needs_display());
}

#[test]
fn error_messages_are_capped() {
    let mut report = DeletionReport::new();
    for i in 0..10u32 {
        let path: Vec<char> = format!("/home/u/.cache/f{}", i).chars().collect();
        report.record_attempt(&path, Err(p("boom")), Platform::Linux);
    }
    assert_eq!(report.failed, 10);
    assert_eq!(report.errors.len(), REPORT_ERROR_CAP);
    assert_eq!(report.errors[0], p("f0: boom"));
    assert_eq!(report.errors[2], p("f2: boom"));
}

#[test]
fn prune_removes_deleted_paths_and_recomputes_totals() {
    // A category of 500 + 300 + 700 bytes weighs 1500; deleting the
    // 300-byte item leaves 1200 across exactly two items.
    let mut tree = JunkTree::new();
    let mut node = CategoryNode::new(JunkCategory::UserHoarding);
    node.add_item(item("/home/u/Downloads/a", 500));
    node.add_item(item("/home/u/Downloads/b", 300));
    node.add_item(item("/home/u/Downloads/c", 700));
    tree.push_category(node);
    assert_eq!(tree.total_size(), 1500);

    let deleted = vec![p("/home/u/Downloads/b")];
    let freed = tree.prune_deleted(&deleted);
    assert_eq!(freed, 300);
    assert_eq!(tree.categories.len(), 1);
    assert_eq!(tree.categories[0].items.len(), 2);
    assert_eq!(tree.categories[0].total_size, 1200);
    assert_eq!(tree.total_size(), 1200);
    assert_eq!(tree.selected.len(), 0);
    assert_eq!(tree.position, TreePosition::Category(0));
}

#[test]
fn prune_drops_emptied_categories() {
    let mut tree = JunkTree::new();
    let mut a = CategoryNode::new(JunkCategory::SystemJunk);
    a.add_item(item("/home/u/.cache/x", 100));
    let mut b = CategoryNode::new(JunkCategory::BrowserBloat);
    b.add_item(item("/home/u/.cache/google-chrome", 900));
    tree.push_category(a);
    tree.push_category(b);

    let deleted = vec![p("/home/u/.cache/x")];
    let freed = tree.prune_deleted(&deleted);
    assert_eq!(freed, 100);
    assert_eq!(tree.categories.len(), 1);
    assert_eq!(tree.categories[0].category, JunkCategory::BrowserBloat);
}

#[test]
fn protected_paths_stay_in_the_tree() {
    // A selected but protected path is counted, never deleted, and keeps
    // its place in the tree: only deleted paths are pruned.
    let mut tree = JunkTree::new();
    let mut node = CategoryNode::new(JunkCategory::SystemJunk);
    node.add_item(item("/home/u/.ssh/id_rsa", 4000));
    node.add_item(item("/home/u/.cache/fake", 2000));
    tree.push_category(node);

    let home = p("/home/u");
    let mut report = DeletionReport::new();
    let mut actually_deleted: Vec<Vec<char>> = Vec::new();
    for path in [p("/home/u/.ssh/id_rsa"), p("/home/u/.cache/fake")] {
        if report.check_path(&path, &home, Platform::Linux) {
            report.record_attempt(&path, Ok(()), Platform::Linux);
            actually_deleted.push(path);
        }
    }
    assert_eq!(report.protected, 1);
    assert_eq!(report.deleted, 1);

    tree.prune_deleted(&actually_deleted);
    assert_eq!(tree.categories.len(), 1);
    assert_eq!(tree.categories[0].items.len(), 1);
    assert_eq!(tree.categories[0].items[0].path, p("/home/u/.ssh/id_rsa"));
    assert_eq!(tree.categories[0].total_size, 4000);
}
