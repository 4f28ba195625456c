use sf_plugin_template::ui::{MenuItem, UiTree, Widget};

fn text(s: &str) -> Widget {
    Widget::Text(s.to_string(), None)
}

#[test]
fn new_tree_is_empty() {
    let tree = UiTree::new();
    assert_eq!(tree.len(), 0);
    assert!(!tree.is_alive(0));
    assert_eq!(tree.parent(0), None);
    assert_eq!(tree.widget(0), None);
    assert_eq!(tree.menu_item(0), None);
    assert_eq!(tree.children(0), Vec::<usize>::new());
}

#[test]
fn spawn_gives_ids_in_creation_order() {
    let mut tree = UiTree::new();
    let root = tree.spawn_root(Widget::Container);
    let a = tree.spawn_child(root, Widget::Container);
    let b = tree.spawn_child(root, text("b"));
    let c = tree.spawn_child(a, text("c"));
    assert_eq!((root, a, b, c), (0, 1, 2, 3));
    assert_eq!(tree.len(), 4);
    assert_eq!(tree.parent(root), None);
    assert_eq!(tree.parent(a), Some(root));
    assert_eq!(tree.parent(b), Some(root));
    assert_eq!(tree.parent(c), Some(a));
    assert_eq!(tree.children(root), vec![a, b]);
    assert_eq!(tree.children(a), vec![c]);
    assert_eq!(tree.children(b), Vec::<usize>::new());
    assert_eq!(tree.widget(b), Some(&text("b")));
    assert_eq!(tree.widget(a), Some(&Widget::Container));
}

#[test]
fn several_roots_may_coexist() {
    let mut tree = UiTree::new();
    let first = tree.spawn_root(Widget::Container);
    let second = tree.spawn_root(Widget::MenuContent);
    assert_eq!(tree.parent(first), None);
    assert_eq!(tree.parent(second), None);
    assert_eq!(tree.widget(second), Some(&Widget::MenuContent));
}

#[test]
fn despawn_children_removes_the_whole_subtree_and_nothing_else() {
    let mut tree = UiTree::new();
    let root = tree.spawn_root(Widget::Container);
    let keep = tree.spawn_child(root, Widget::Container);
    let pane = tree.spawn_child(root, Widget::MenuContent);
    let child = tree.spawn_child(pane, Widget::Container);
    let kept_child = tree.spawn_child(keep, text("kept"));
    let grandchild = tree.spawn_child(child, text("deep"));
    let second_child = tree.spawn_child(pane, text("second"));
    let great = tree.spawn_child(grandchild, text("deeper"));

    tree.despawn_children(pane);

    assert!(tree.is_alive(root));
    assert!(tree.is_alive(keep));
    assert!(tree.is_alive(pane));
    assert!(tree.is_alive(kept_child));
    assert!(!tree.is_alive(child));
    assert!(!tree.is_alive(grandchild));
    assert!(!tree.is_alive(second_child));
    assert!(!tree.is_alive(great));
    assert_eq!(tree.children(pane), Vec::<usize>::new());
    assert_eq!(tree.children(root), vec![keep, pane]);
    assert_eq!(tree.children(keep), vec![kept_child]);
    assert_eq!(tree.len(), 8);
}

#[test]
fn despawned_nodes_keep_their_slot_and_ids_are_not_reused() {
    let mut tree = UiTree::new();
    let root = tree.spawn_root(Widget::Container);
    let gone = tree.spawn_child(root, text("gone"));
    tree.despawn_children(root);
    assert!(!tree.is_alive(gone));
    assert_eq!(tree.parent(gone), Some(root));
    assert_eq!(tree.widget(gone), Some(&text("gone")));
    let fresh = tree.spawn_child(root, text("fresh"));
    assert_eq!(fresh, 2);
    assert_eq!(tree.children(root), vec![fresh]);
}

#[test]
fn despawn_children_of_a_leaf_changes_nothing() {
    let mut tree = UiTree::new();
    let root = tree.spawn_root(Widget::Container);
    let leaf = tree.spawn_child(root, text("leaf"));
    let before = tree.clone();
    tree.despawn_children(leaf);
    assert_eq!(tree, before);
}

#[test]
fn despawn_children_twice_is_the_same_as_once() {
    let mut tree = UiTree::new();
    let root = tree.spawn_root(Widget::Container);
    let a = tree.spawn_child(root, Widget::Container);
    tree.spawn_child(a, text("x"));
    tree.despawn_children(root);
    let once = tree.clone();
    tree.despawn_children(root);
    assert_eq!(tree, once);
}

#[test]
fn menu_item_is_read_from_buttons_only() {
    let mut tree = UiTree::new();
    let root = tree.spawn_root(Widget::Container);
    let entry = MenuItem { plugin_name: "Template".to_string(), selected: false };
    let button = tree.spawn_child(root, Widget::Button(entry.clone()));
    let label = tree.spawn_child(button, text("Template"));
    assert_eq!(tree.menu_item(button), Some(&entry));
    assert_eq!(tree.menu_item(root), None);
    assert_eq!(tree.menu_item(label), None);
    assert_eq!(tree.menu_item(99), None);
}

#[test]
fn text_keeps_its_font() {
    let mut tree = UiTree::new();
    let root = tree.spawn_root(Widget::Container);
    let t = tree.spawn_child(root, Widget::Text("hello".to_string(), Some(3)));
    assert_eq!(tree.widget(t), Some(&Widget::Text("hello".to_string(), Some(3))));
}

#[test]
fn despawn_children_of_a_dead_or_unknown_node_changes_nothing() {
    let mut tree = UiTree::new();
    let root = tree.spawn_root(Widget::Container);
    let a = tree.spawn_child(root, Widget::Container);
    let b = tree.spawn_child(a, text("b"));
    let other = tree.spawn_child(root, text("other"));
    tree.despawn_children(root);
    assert!(!tree.is_alive(a) && !tree.is_alive(b) && !tree.is_alive(other));
    let after = tree.clone();
    tree.despawn_children(a);
    assert_eq!(tree, after);
    tree.despawn_children(99);
    assert_eq!(tree, after);
}
