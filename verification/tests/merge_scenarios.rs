//! Merge scenarios: one upper snapshot, or a stack of them, overlaid
//! onto a base tree under each whiteout convention.

use mergetree::merge::BuildTree;
use mergetree::tree::EntryKind;
use mergetree::tree::FileSystemTree;
use mergetree::tree::Overlay;
use mergetree::tree::TreeNode;
use mergetree::tree::WhiteoutSpec;

fn dir(name: &str, overlay: Overlay, children: Vec<TreeNode>) -> TreeNode {
    let mut n = TreeNode::new(name.to_string(), EntryKind::Directory, overlay);
    n.children = children;
    n
}

fn file(name: &str, overlay: Overlay) -> TreeNode {
    TreeNode::new(name.to_string(), EntryKind::RegularFile, overlay)
}

fn chardev(name: &str, overlay: Overlay, major: u64, minor: u64) -> TreeNode {
    TreeNode::new(name.to_string(), EntryKind::CharDevice { major, minor }, overlay)
}

/// Resolve the role of every node of an upper snapshot, as a snapshot
/// builder would before handing the tree to the merge engine.
fn classify(node: &mut TreeNode, ws: WhiteoutSpec) {
    node.build_node_overlay(ws);
    for c in node.children.iter_mut() {
        classify(c, ws);
    }
}

fn upper(children: Vec<TreeNode>, ws: WhiteoutSpec) -> FileSystemTree {
    let mut root = dir("/", Overlay::Unset, children);
    for c in root.children.iter_mut() {
        classify(c, ws);
    }
    FileSystemTree { data: root }
}

fn base(children: Vec<TreeNode>) -> FileSystemTree {
    FileSystemTree { data: dir("/", Overlay::Lower, children) }
}

fn child<'a>(t: &'a TreeNode, name: &str) -> Option<&'a TreeNode> {
    t.children.iter().find(|c| c.name == name)
}

fn names(t: &TreeNode) -> Vec<String> {
    t.children.iter().map(|c| c.name.clone()).collect()
}

#[test]
fn test_common_merge() {
    let b = base(vec![
        dir("a", Overlay::Lower, vec![file("file1", Overlay::Lower), file("file2", Overlay::Lower)]),
        dir("b", Overlay::Lower, vec![file("file3", Overlay::Lower)]),
    ]);
    let u = upper(
        vec![
            dir("a", Overlay::Unset, vec![file("file1", Overlay::Unset)]),
            dir("c", Overlay::Unset, vec![file("file4", Overlay::Unset)]),
        ],
        WhiteoutSpec::Oci,
    );
    let mut build = BuildTree::new(b);
    build.apply_layer(&u, WhiteoutSpec::Oci);
    let root = &build.base_tree.data;

    let a = child(root, "a").expect("a kept");
    assert_eq!(a.children.len(), 2);
    let f1 = child(a, "file1").expect("file1 resolves upper-side");
    assert_eq!(f1.overlay, Overlay::UpperAddition);
    let f2 = child(a, "file2").expect("file2 kept");
    assert_eq!(f2.overlay, Overlay::Lower);
    let b_dir = child(root, "b").expect("b kept");
    assert!(child(b_dir, "file3").is_some());
    let c = child(root, "c").expect("c added");
    assert_eq!(c.overlay, Overlay::UpperAddition);
    let f4 = child(c, "file4").expect("file4 added");
    assert_eq!(f4.overlay, Overlay::UpperAddition);
}

#[test]
fn test_upper_file_to_replace_base() {
    let b = base(vec![dir(
        "a",
        Overlay::Lower,
        vec![file("file1", Overlay::Lower), file("file2", Overlay::Lower)],
    )]);
    let u = upper(
        vec![dir("a", Overlay::Unset, vec![file("file1", Overlay::Unset)])],
        WhiteoutSpec::Oci,
    );
    let mut build = BuildTree::new(b);
    build.apply_tree_by_dfs(&u.data, 0, WhiteoutSpec::Oci);
    let root = &build.base_tree.data;

    let a = child(root, "a").expect("a kept");
    assert_eq!(a.children.len(), 2);
    let f1 = child(a, "file1").expect("file1 present");
    assert_eq!(f1.overlay, Overlay::UpperAddition);
    assert_eq!(f1.kind, EntryKind::RegularFile);
    assert!(child(a, "file2").is_some());
}

#[test]
fn test_upper_dir_to_replace_base() {
    let b = base(vec![dir(
        "a",
        Overlay::Lower,
        vec![file("kept", Overlay::Lower)],
    )]);
    let u = upper(
        vec![dir("a", Overlay::Unset, vec![file("added", Overlay::Unset)])],
        WhiteoutSpec::Oci,
    );
    let mut build = BuildTree::new(b);
    build.apply_layer(&u, WhiteoutSpec::Oci);
    let root = &build.base_tree.data;

    // A same-named upper directory does not replace the base
    // directory: the two merge.
    let a = child(root, "a").expect("a kept");
    assert_eq!(a.overlay, Overlay::Lower);
    assert_eq!(a.children.len(), 2);
    assert!(child(a, "kept").is_some());
    let added = child(a, "added").expect("upper child landed");
    assert_eq!(added.overlay, Overlay::UpperAddition);
}

#[test]
fn test_oci_upper_remove() {
    let b = base(vec![dir(
        "a",
        Overlay::Lower,
        vec![file("file1", Overlay::Lower), file("file2", Overlay::Lower)],
    )]);
    let u = upper(
        vec![dir("a", Overlay::Unset, vec![file(".wh.file2", Overlay::Unset)])],
        WhiteoutSpec::Oci,
    );
    assert_eq!(child(&u.data, "a").unwrap().children[0].overlay, Overlay::UpperRemove);
    let mut build = BuildTree::new(b);
    build.apply_layer(&u, WhiteoutSpec::Oci);
    let root = &build.base_tree.data;

    let a = child(root, "a").expect("a kept");
    assert!(child(a, "file2").is_none(), "file2 removed");
    assert!(child(a, ".wh.file2").is_none(), "the marker never appears");
    assert!(child(a, "file1").is_some(), "file1 kept");
}

#[test]
fn test_oci_upper_dir_opaque() {
    let b = base(vec![dir(
        "a",
        Overlay::Lower,
        vec![
            file("file1", Overlay::Lower),
            dir("sub", Overlay::Lower, vec![file("deep", Overlay::Lower)]),
        ],
    )]);
    // The opaque marker stands before the sibling addition, so the
    // clear lands first.
    let u = upper(
        vec![dir(
            "a",
            Overlay::Unset,
            vec![file(".wh..wh..opq", Overlay::Unset), file("fresh", Overlay::Unset)],
        )],
        WhiteoutSpec::Oci,
    );
    let mut build = BuildTree::new(b);
    build.apply_layer(&u, WhiteoutSpec::Oci);
    let root = &build.base_tree.data;

    let a = child(root, "a").expect("a kept");
    assert_eq!(names(a), vec!["fresh".to_string()]);
    assert!(child(a, ".wh..wh..opq").is_none(), "the marker never appears");
}

#[test]
fn test_multi_upper_dir_merge() {
    let b = base(vec![dir("x", Overlay::Lower, vec![])]);
    let layer1 = upper(
        vec![dir("x", Overlay::Unset, vec![file("new", Overlay::Unset)])],
        WhiteoutSpec::Oci,
    );
    let layer2 = upper(
        vec![dir("x", Overlay::Unset, vec![file(".wh.new", Overlay::Unset)])],
        WhiteoutSpec::Oci,
    );
    let layer3 = upper(
        vec![dir("x", Overlay::Unset, vec![file("new", Overlay::Unset)])],
        WhiteoutSpec::Oci,
    );
    let mut build = BuildTree::new(b);
    for layer in [&layer1, &layer2, &layer3] {
        build.apply_tree_by_dfs(&layer.data, 0, WhiteoutSpec::Oci);
    }
    let root = &build.base_tree.data;

    let x = child(root, "x").expect("x kept");
    let new = child(x, "new").expect("the last layer wins: new is back");
    assert_eq!(new.overlay, Overlay::UpperAddition);
    assert_eq!(x.children.len(), 1);
}

#[test]
fn test_overlayfs_upper_remove() {
    let b = base(vec![dir(
        "a",
        Overlay::Lower,
        vec![file("file1", Overlay::Lower), file("file2", Overlay::Lower)],
    )]);
    let u = upper(
        vec![dir(
            "a",
            Overlay::Unset,
            vec![chardev("file1", Overlay::Unset, 0, 0)],
        )],
        WhiteoutSpec::Overlayfs,
    );
    assert_eq!(child(&u.data, "a").unwrap().children[0].overlay, Overlay::UpperRemove);
    let mut build = BuildTree::new(b);
    build.apply_layer(&u, WhiteoutSpec::Overlayfs);
    let root = &build.base_tree.data;

    let a = child(root, "a").expect("a kept");
    assert!(child(a, "file1").is_none(), "file1 removed");
    assert!(child(a, "file2").is_some(), "file2 kept");
    assert_eq!(a.children.len(), 1);
}

#[test]
fn test_overlayfs_upper_dir_opaque() {
    let b = base(vec![dir(
        "a",
        Overlay::Lower,
        vec![
            file("file1", Overlay::Lower),
            dir("sub", Overlay::Lower, vec![file("deep", Overlay::Lower)]),
        ],
    )]);
    let mut marked = dir("a", Overlay::Unset, vec![file("fresh", Overlay::Unset)]);
    marked.xattrs.add("trusted.overlay.opaque".to_string(), vec![b'y']);
    let u = upper(vec![marked], WhiteoutSpec::Overlayfs);
    assert_eq!(child(&u.data, "a").unwrap().overlay, Overlay::UpperOpaque);
    let mut build = BuildTree::new(b);
    build.apply_layer(&u, WhiteoutSpec::Overlayfs);
    let root = &build.base_tree.data;

    let a = child(root, "a").expect("a kept");
    assert_eq!(names(a), vec!["fresh".to_string()], "prior children cleared, upper child landed");
}
