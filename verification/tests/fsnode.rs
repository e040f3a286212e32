use svdocgen::fsnode::FsNode;
use svdocgen::paths::{names_of_components, PathComponent};

fn root() -> FsNode {
    FsNode::new(String::new())
}

fn names(parts: &[&str]) -> Vec<String> {
    parts.iter().map(|p| p.to_string()).collect()
}

fn child_names(node: &FsNode) -> Vec<String> {
    node.children.iter().map(|c| c.name.clone()).collect()
}

fn stops(node: &FsNode) -> Vec<(String, usize)> {
    node.traverse_top().iter().map(|v| (v.path.join("/"), v.level)).collect()
}

#[test]
fn new_node_is_a_leaf() {
    let node = FsNode::new("top".to_string());
    assert_eq!(node.name, "top");
    assert!(node.children.is_empty());
}

#[test]
fn push_makes_one_node_per_component() {
    let mut tree = root();
    tree.push("dir1/sub/n.v");
    assert_eq!(child_names(&tree), vec!["dir1"]);
    assert_eq!(child_names(&tree.children[0]), vec!["sub"]);
    assert_eq!(child_names(&tree.children[0].children[0]), vec!["n.v"]);
    assert!(tree.children[0].children[0].children[0].children.is_empty());
}

#[test]
fn push_skips_what_is_not_normal() {
    let mut tree = root();
    tree.push("/abs/./x/../y");
    assert_eq!(stops(&tree), vec![
        ("abs".to_string(), 0),
        ("abs/x".to_string(), 1),
        ("abs/x/y".to_string(), 2),
    ]);
    let mut other = root();
    other.push("./vendor//foo.sv");
    assert_eq!(stops(&other), vec![("vendor".to_string(), 0), ("vendor/foo.sv".to_string(), 1)]);
}

#[test]
fn push_of_an_empty_path_changes_nothing() {
    let mut tree = root();
    tree.push("");
    assert!(tree.children.is_empty());
    tree.push(".");
    assert!(tree.children.is_empty());
    assert!(tree.contains(""));
}

#[test]
fn push_twice_is_idempotent() {
    let mut tree = root();
    tree.push("pkg.sv");
    tree.push("pkg.sv");
    assert_eq!(child_names(&tree), vec!["pkg.sv"]);
    tree.push("a/b");
    tree.push("a/b");
    assert_eq!(stops(&tree), vec![
        ("pkg.sv".to_string(), 0),
        ("a".to_string(), 0),
        ("a/b".to_string(), 1),
    ]);
}

#[test]
fn two_insertions_share_their_common_prefix() {
    let mut tree = root();
    tree.push("a/b/c.sv");
    tree.push("a/b/d.sv");
    tree.push("a/e.v");
    assert_eq!(child_names(&tree), vec!["a"]);
    assert_eq!(child_names(&tree.children[0]), vec!["b", "e.v"]);
    assert_eq!(child_names(&tree.children[0].children[0]), vec!["c.sv", "d.sv"]);
    assert!(tree.contains("a/b/c.sv"));
    assert!(tree.contains("a/b/d.sv"));
    assert!(tree.contains("a/e.v"));
}

#[test]
fn contains_finds_what_was_inserted_and_its_prefixes() {
    let mut tree = root();
    tree.push("dir1/m.sv");
    assert!(tree.contains("dir1/m.sv"));
    assert!(tree.contains("dir1"));
    assert!(tree.contains("./dir1/./m.sv"));
    assert!(!tree.contains("dir1/n.sv"));
    assert!(!tree.contains("dir1/m.sv/x"));
}

#[test]
fn contains_fails_on_a_foreign_first_component() {
    let mut tree = root();
    tree.push("a/b");
    tree.push("c");
    assert!(!tree.contains("b"));
    assert!(!tree.contains("d/b"));
    assert!(!tree.contains("b/a"));
}

#[test]
fn contains_enters_the_first_child_of_a_name() {
    let first = FsNode { name: "a".to_string(), children: vec![FsNode::new("x".to_string())] };
    let second = FsNode { name: "a".to_string(), children: vec![FsNode::new("y".to_string())] };
    let tree = FsNode { name: String::new(), children: vec![first, second] };
    assert!(tree.contains("a/x"));
    assert!(!tree.contains("a/y"));
}

#[test]
fn push_components_takes_only_normal_components() {
    let parts = vec![
        PathComponent::RootDir,
        PathComponent::Normal("a".to_string()),
        PathComponent::CurDir,
        PathComponent::ParentDir,
        PathComponent::Prefix,
        PathComponent::Normal("b".to_string()),
    ];
    assert_eq!(names_of_components(&parts), names(&["a", "b"]));
    let mut tree = root();
    tree.push_components(&parts);
    assert_eq!(stops(&tree), vec![("a".to_string(), 0), ("a/b".to_string(), 1)]);
    assert!(tree.contains_components(&parts));
    assert!(!tree.contains_components(&vec![PathComponent::Normal("b".to_string())]));
}

#[test]
fn push_names_and_contains_names_agree() {
    let mut tree = root();
    tree.push_names(&names(&["x", "y", "z"]));
    assert!(tree.contains_names(&names(&["x", "y", "z"])));
    assert!(tree.contains_names(&names(&["x", "y"])));
    assert!(tree.contains_names(&names(&[])));
    assert!(!tree.contains_names(&names(&["y"])));
    // A name is taken as it is: it is not split again.
    tree.push_names(&names(&["p/q"]));
    assert_eq!(child_names(&tree), vec!["x", "p/q"]);
    assert!(!tree.contains("p/q"));
}

#[test]
fn traverse_top_is_depth_first_in_insertion_order() {
    let mut tree = root();
    tree.push("b/2");
    tree.push("a/1");
    tree.push("b/1");
    tree.push("a/0/deep");
    assert_eq!(stops(&tree), vec![
        ("b".to_string(), 0),
        ("b/2".to_string(), 1),
        ("b/1".to_string(), 1),
        ("a".to_string(), 0),
        ("a/1".to_string(), 1),
        ("a/0".to_string(), 1),
        ("a/0/deep".to_string(), 2),
    ]);
}

#[test]
fn traverse_hands_out_the_node_of_each_stop() {
    let mut tree = root();
    tree.push("d/f.sv");
    let visits = tree.traverse_top();
    assert_eq!(visits.len(), 2);
    assert_eq!(visits[0].node.name, "d");
    assert_eq!(visits[0].node.children.len(), 1);
    assert_eq!(visits[1].node.name, "f.sv");
    assert!(visits[1].node.children.is_empty());
}

#[test]
fn traverse_starts_from_the_given_path_and_level() {
    let mut tree = root();
    tree.push("d/f.sv");
    let visits = tree.traverse(&names(&["out", "src"]), 3);
    let seen: Vec<(Vec<String>, usize)> =
        visits.iter().map(|v| (v.path.clone(), v.level)).collect();
    assert_eq!(seen, vec![
        (names(&["out", "src", "d"]), 3),
        (names(&["out", "src", "d", "f.sv"]), 4),
    ]);
}

#[test]
fn traverse_of_a_leaf_is_empty() {
    assert!(root().traverse_top().is_empty());
    assert!(root().traverse(&names(&["x"]), usize::MAX).is_empty());
}

#[test]
fn clone_copies_the_whole_tree() {
    let mut tree = root();
    tree.push("a/b");
    tree.push("c");
    let mut copy = tree.clone();
    assert_eq!(stops(&copy), stops(&tree));
    copy.push("a/z");
    assert!(copy.contains("a/z"));
    assert!(!tree.contains("a/z"));
}

#[test]
fn iter_hands_out_nothing() {
    let mut tree = root();
    tree.push("a");
    let mut cursor = tree.iter();
    assert!(cursor.next().is_none());
    assert!(cursor.next().is_none());
}
