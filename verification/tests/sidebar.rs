use waddle::sidebar::{find_loading_node_id, FolderNode};

fn node(id: u64, path: &str, loading: bool, children: Vec<FolderNode>) -> FolderNode {
    FolderNode { id, path: path.to_owned(), loading, children }
}

#[test]
fn loading_nodes_are_found_depth_first() {
    let tree = vec![
        node(1, "/a", false, vec![node(2, "/a/b", true, Vec::new())]),
        node(3, "/a/b", true, Vec::new()),
        node(4, "/c", true, Vec::new()),
    ];
    assert_eq!(find_loading_node_id(&tree, "/a/b"), Some(2));
    assert_eq!(find_loading_node_id(&tree, "/c"), Some(4));
    assert_eq!(find_loading_node_id(&tree, "/a"), None);
    assert_eq!(find_loading_node_id(&[], "/a"), None);
}
