use soundscout::folder_tree::build_folder_tree;
use soundscout::models::FolderNode;

fn find<'a>(nodes: &'a [FolderNode], name: &str) -> &'a FolderNode {
    nodes.iter().find(|n| n.name == name).expect("node")
}

#[test]
fn build_folder_tree_creates_nested_structure() {
    let flat = vec![("/lib/a".into(), 2u64), ("/lib/a/b".into(), 1u64)];
    let tree = build_folder_tree(&flat);
    assert!(!tree.is_empty());
}

#[test]
fn nested_rows_give_one_node_per_segment() {
    let flat = vec![("/lib/a".to_string(), 2u64), ("/lib/a/b".to_string(), 1u64)];
    let tree = build_folder_tree(&flat);
    assert_eq!(tree.len(), 1);
    let lib = &tree[0];
    assert_eq!((lib.name.as_str(), lib.path.as_str(), lib.count), ("lib", "/lib", 0));
    assert_eq!(lib.children.len(), 1);
    let a = &lib.children[0];
    assert_eq!((a.name.as_str(), a.path.as_str(), a.count), ("a", "/lib/a", 2));
    let b = &a.children[0];
    assert_eq!((b.name.as_str(), b.path.as_str(), b.count), ("b", "/lib/a/b", 1));
    assert!(b.children.is_empty());
}

#[test]
fn siblings_are_sorted_by_name() {
    let flat = vec![
        ("/z".to_string(), 1u64),
        ("/b/y".to_string(), 2u64),
        ("/a".to_string(), 3u64),
        ("/b/x".to_string(), 4u64),
        ("/B".to_string(), 5u64),
    ];
    let tree = build_folder_tree(&flat);
    let names: Vec<&str> = tree.iter().map(|n| n.name.as_str()).collect();
    assert_eq!(names, vec!["B", "a", "b", "z"]);
    let b = find(&tree, "b");
    let kids: Vec<&str> = b.children.iter().map(|n| n.name.as_str()).collect();
    assert_eq!(kids, vec!["x", "y"]);
    assert_eq!(find(&b.children, "x").count, 4);
}

#[test]
fn later_rows_for_a_folder_win_and_empty_segments_are_dropped() {
    let flat = vec![
        ("/lib//a/".to_string(), 2u64),
        ("lib/a".to_string(), 7u64),
        ("/".to_string(), 9u64),
        ("".to_string(), 9u64),
    ];
    let tree = build_folder_tree(&flat);
    assert_eq!(tree.len(), 1);
    let a = find(&tree[0].children, "a");
    assert_eq!(a.count, 7);
    assert_eq!(a.path, "/lib/a");
}

#[test]
fn empty_input_gives_empty_tree() {
    assert!(build_folder_tree(&[]).is_empty());
}

fn check_paths(nodes: &[FolderNode], prefix: &str) {
    for n in nodes {
        assert!(!n.name.is_empty() && !n.name.contains('/'));
        assert_eq!(n.path, format!("{prefix}/{}", n.name));
        check_paths(&n.children, &n.path);
    }
}

#[test]
fn every_path_is_the_parent_path_and_the_name() {
    let flat = vec![
        ("//x//y/".to_string(), 1u64),
        ("x/z".to_string(), 2u64),
        ("/w".to_string(), 3u64),
        ("".to_string(), 4u64),
        ("x".to_string(), 5u64),
    ];
    let tree = build_folder_tree(&flat);
    check_paths(&tree, "");
    assert_eq!(tree.len(), 2);
}
