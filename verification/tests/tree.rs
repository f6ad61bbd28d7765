use imp_tui::views::tree::{flatten_tree, SessionTreeNode, TreeBlock, TreeEntry};

fn message(id: &str, blocks: Vec<TreeBlock>, is_user: bool, children: Vec<SessionTreeNode>) -> SessionTreeNode {
    SessionTreeNode {
        entry: TreeEntry::Message { id: id.to_string(), content: blocks, is_user, is_tool: false },
        children,
    }
}

#[test]
fn flatten_lists_nodes_depth_first_with_depths() {
    let tree = vec![
        message(
            "a",
            vec![TreeBlock::Text("hello".into())],
            true,
            vec![message("b", vec![TreeBlock::Other, TreeBlock::Text("reply".into())], false, vec![])],
        ),
        message("c", vec![], true, vec![]),
    ];
    let flat = flatten_tree(&tree, 0);
    assert_eq!(flat.len(), 3);
    assert_eq!(flat[0].id, "a");
    assert_eq!(flat[0].depth, 0);
    assert_eq!(flat[0].summary, "hello");
    assert!(flat[0].is_user);
    assert!(flat[0].has_children);
    assert!(!flat[0].is_last_child);
    assert_eq!(flat[1].id, "b");
    assert_eq!(flat[1].depth, 1);
    assert_eq!(flat[1].summary, "reply");
    assert!(flat[1].is_last_child);
    assert_eq!(flat[2].id, "c");
    assert_eq!(flat[2].summary, "");
    assert!(flat[2].is_last_child);
    assert!(!flat[2].has_children);
}

#[test]
fn flatten_cuts_long_messages_and_marks_compactions() {
    let long = "x".repeat(70);
    let tree = vec![
        message("m", vec![TreeBlock::Text(long)], false, vec![]),
        SessionTreeNode {
            entry: TreeEntry::Compaction { id: "k".into(), summary: "y".repeat(45) },
            children: vec![],
        },
        SessionTreeNode {
            entry: TreeEntry::Other,
            children: vec![message("hidden", vec![], true, vec![])],
        },
    ];
    let flat = flatten_tree(&tree, 2);
    assert_eq!(flat.len(), 2);
    assert_eq!(flat[0].summary, format!("{}…", "x".repeat(57)));
    assert_eq!(flat[0].depth, 2);
    assert_eq!(flat[1].summary, format!("[compaction: {}…]", "y".repeat(39)));
    assert!(!flat[1].is_last_child);
    assert!(!flat[1].is_user);
}
