use prometheus_core::tree::{CategoryNode, JunkCategory, JunkItem, JunkTree, TreePosition};

fn p(s: &str) -> Vec<char> {
    s.chars().collect()
}

fn item(path: &str, size: u64) -> JunkItem {
    JunkItem { path: p(path), size, junk_type: p("Test") }
}

fn two_category_tree() -> JunkTree {
    let mut tree = JunkTree::new();
    let mut a = CategoryNode::new(JunkCategory::SystemJunk);
    a.add_item(item("/home/u/.cache/a", 500));
    a.add_item(item("/home/u/.cache/b", 300));
    let mut b = CategoryNode::new(JunkCategory::BrowserBloat);
    b.add_item(item("/home/u/.cache/google-chrome", 700));
    tree.push_category(a);
    tree.push_category(b);
    tree
}

#[test]
fn empty_tree_stays_put() {
    let mut tree = JunkTree::new();
    assert_eq!(tree.get_flat_index(), 0);
    tree.move_up();
    assert_eq!(tree.position, TreePosition::Category(0));
    tree.move_down();
    assert_eq!(tree.position, TreePosition::Category(0));
    tree.toggle_expand();
    tree.toggle_selection();
    assert_eq!(tree.selected.len(), 0);
    assert_eq!(tree.selected_size(), 0);
}

#[test]
fn category_names_and_icons() {
    assert_eq!(JunkCategory::SystemJunk.name(), "System Junk");
    assert_eq!(JunkCategory::LargeFiles.name(), "Large Files (500MB+)");
    assert_eq!(JunkCategory::BrowserBloat.icon(), "🌐");
}

#[test]
fn add_item_keeps_total_in_step() {
    let mut node = CategoryNode::new(JunkCategory::UserHoarding);
    assert_eq!(node.total_size, 0);
    node.add_item(item("/home/u/Downloads/a.zip", 500));
    node.add_item(item("/home/u/Downloads/b.zip", 300));
    node.add_item(item("/home/u/Downloads/c.zip", 700));
    assert_eq!(node.total_size, 1500);
    assert_eq!(node.items.len(), 3);
}

#[test]
fn empty_categories_are_dropped_by_the_consumer() {
    let mut tree = JunkTree::new();
    let accepted = tree.push_category(CategoryNode::new(JunkCategory::SystemJunk));
    assert!(!accepted);
    assert_eq!(tree.categories.len(), 0);
}

#[test]
fn flat_index_counts_only_visible_rows() {
    let mut tree = two_category_tree();
    assert_eq!(tree.get_flat_index(), 0);
    tree.position = TreePosition::Category(1);
    // First category is collapsed: its items take no rows.
    assert_eq!(tree.get_flat_index(), 1);
    tree.categories[0].expanded = true;
    assert_eq!(tree.get_flat_index(), 3);
    tree.position = TreePosition::Item(0, 1);
    assert_eq!(tree.get_flat_index(), 2);
}

#[test]
fn move_down_skips_collapsed_items() {
    let mut tree = two_category_tree();
    tree.move_down();
    assert_eq!(tree.position, TreePosition::Category(1));
    // At the last visible row it stays put.
    tree.move_down();
    assert_eq!(tree.position, TreePosition::Category(1));
}

#[test]
fn move_down_enters_expanded_category() {
    let mut tree = two_category_tree();
    tree.categories[0].expanded = true;
    tree.move_down();
    assert_eq!(tree.position, TreePosition::Item(0, 0));
    tree.move_down();
    assert_eq!(tree.position, TreePosition::Item(0, 1));
    tree.move_down();
    assert_eq!(tree.position, TreePosition::Category(1));
}

#[test]
fn move_up_lands_on_last_item_of_expanded_category() {
    let mut tree = two_category_tree();
    tree.categories[0].expanded = true;
    tree.position = TreePosition::Category(1);
    tree.move_up();
    assert_eq!(tree.position, TreePosition::Item(0, 1));
    tree.move_up();
    assert_eq!(tree.position, TreePosition::Item(0, 0));
    tree.move_up();
    assert_eq!(tree.position, TreePosition::Category(0));
    tree.move_up();
    assert_eq!(tree.position, TreePosition::Category(0));
}

#[test]
fn toggle_expand_flips_only_the_cursor_category() {
    let mut tree = two_category_tree();
    tree.toggle_expand();
    assert!(tree.categories[0].expanded);
    assert!(!tree.categories[1].expanded);
    tree.toggle_expand();
    assert!(!tree.categories[0].expanded);
}

#[test]
fn toggle_selection_on_category_selects_all_items() {
    let mut tree = two_category_tree();
    tree.toggle_selection();
    assert_eq!(tree.selected.len(), 2);
    assert!(tree.selected.contains(&p("/home/u/.cache/a")));
    assert!(tree.selected.contains(&p("/home/u/.cache/b")));
}

#[test]
fn toggle_selection_on_fully_selected_category_deselects_all() {
    let mut tree = two_category_tree();
    tree.toggle_selection();
    tree.toggle_selection();
    assert_eq!(tree.selected.len(), 0);
}

#[test]
fn toggle_twice_with_wider_selection_restores_it() {
    // The category's items are a strict subset of the selection: two
    // toggles deselect and reselect them, leaving the rest untouched.
    let mut tree = two_category_tree();
    tree.selected.push(p("/home/u/.cache/a"));
    tree.selected.push(p("/home/u/.cache/b"));
    tree.selected.push(p("/home/u/.cache/google-chrome"));
    tree.toggle_selection();
    assert_eq!(tree.selected.len(), 1);
    assert!(tree.selected.contains(&p("/home/u/.cache/google-chrome")));
    tree.toggle_selection();
    assert_eq!(tree.selected.len(), 3);
    assert!(tree.selected.contains(&p("/home/u/.cache/a")));
    assert!(tree.selected.contains(&p("/home/u/.cache/b")));
    assert!(tree.selected.contains(&p("/home/u/.cache/google-chrome")));
}

#[test]
fn partial_selection_toggles_toward_select_all() {
    let mut tree = two_category_tree();
    tree.selected.push(p("/home/u/.cache/a"));
    tree.toggle_selection();
    assert_eq!(tree.selected.len(), 2);
    assert!(tree.selected.contains(&p("/home/u/.cache/a")));
    assert!(tree.selected.contains(&p("/home/u/.cache/b")));
}

#[test]
fn toggle_selection_on_item_flips_only_that_path() {
    let mut tree = two_category_tree();
    tree.categories[0].expanded = true;
    tree.position = TreePosition::Item(0, 1);
    tree.toggle_selection();
    assert_eq!(tree.selected, vec![p("/home/u/.cache/b")]);
    tree.toggle_selection();
    assert_eq!(tree.selected.len(), 0);
}

#[test]
fn selected_size_sums_only_selected_items() {
    let mut tree = two_category_tree();
    assert_eq!(tree.selected_size(), 0);
    tree.selected.push(p("/home/u/.cache/a"));
    tree.selected.push(p("/home/u/.cache/google-chrome"));
    assert_eq!(tree.selected_size(), 1200);
    assert_eq!(tree.total_size(), 1500);
}

#[test]
fn current_path_is_some_only_on_items() {
    let mut tree = two_category_tree();
    assert_eq!(tree.get_current_path(), None);
    tree.categories[0].expanded = true;
    tree.position = TreePosition::Item(0, 0);
    assert_eq!(tree.get_current_path(), Some(p("/home/u/.cache/a")));
}
