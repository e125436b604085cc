use waddle::paths::{after_probe, nearest_existing_ancestor, path_parts, same_path, Probe};

#[test]
fn a_probe_answer_decides_the_next_candidate() {
    assert!(matches!(after_probe(&"/a/b".to_owned(), true), Probe::Found(c) if c == "/a/b"));
    assert!(matches!(after_probe(&"/a/b".to_owned(), false), Probe::Up(p) if p == "/a"));
    assert!(matches!(after_probe(&"/a".to_owned(), false), Probe::Up(p) if p == "/"));
    assert!(matches!(after_probe(&"/".to_owned(), false), Probe::Root));
    assert!(matches!(after_probe(&"".to_owned(), false), Probe::Root));
}

#[test]
fn the_nearest_existing_folder_is_found_by_climbing() {
    let temp = tempfile::tempdir().unwrap();
    let root = temp.path().to_str().unwrap().to_owned();
    let missing = temp.path().join("gone/deeper/child").to_str().unwrap().to_owned();
    assert_eq!(nearest_existing_ancestor(&missing), root);
    assert_eq!(nearest_existing_ancestor(&root), root);
    assert_eq!(nearest_existing_ancestor(&"relative-and-missing".to_owned()), "/");
}

#[test]
fn paths_are_compared_by_components() {
    assert!(same_path("/tmp", "/tmp/"));
    assert!(same_path("/a//b/./c", "/a/b/c"));
    assert!(same_path("./a", "./a/."));
    assert!(!same_path("./a", "a"));
    assert!(!same_path("/a/../b", "/b"));
    assert!(!same_path("/a", "a"));
    assert!(!same_path("", "."));
    assert_eq!(path_parts("/a/./b/").len(), 3);
}
