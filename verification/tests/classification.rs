//! The whiteout classifier: roles and fine-grained marker types as a
//! function of name, kind, device numbers and extended attributes.

use mergetree::option::MergeTreeOpt;
use mergetree::tree::EntryKind;
use mergetree::tree::Overlay;
use mergetree::tree::TreeNode;
use mergetree::tree::WhiteoutSpec;
use mergetree::tree::WhiteoutType;
use mergetree::xattrs::XAttrs;

fn node(name: &str, kind: EntryKind, overlay: Overlay) -> TreeNode {
    TreeNode::new(name.to_string(), kind, overlay)
}

/// The constants every interoperating tool must match, bit for bit.
#[test]
fn marker_constants_are_bit_exact() {
    assert_eq!(mergetree::tree::OCI_WHITEOUT_PREFIX, ".wh.");
    assert_eq!(mergetree::tree::OCI_WHITEOUT_OPAQUE, ".wh..wh..opq");
    assert_eq!(mergetree::tree::OVERLAYFS_WHITEOUT_OPAQUE, "trusted.overlay.opaque");
}

/// The OCI opaque literal classifies as opaque, never as a removal,
/// although its name also carries the removal prefix.
#[test]
fn oci_opaque_literal_is_not_a_removal() {
    let mut n = node(".wh..wh..opq", EntryKind::RegularFile, Overlay::Unset);
    assert_eq!(n.whiteout_type(&WhiteoutSpec::Oci), Some(WhiteoutType::OciOpaque));
    n.build_node_overlay(WhiteoutSpec::Oci);
    assert_eq!(n.overlay, Overlay::UpperOpaque);
    assert!(n.is_opaque());
    assert!(!n.is_remove());
    assert!(n.is_whiteout());
}

#[test]
fn oci_prefix_marks_a_removal() {
    let mut n = node(".wh.data", EntryKind::RegularFile, Overlay::Unset);
    assert_eq!(n.whiteout_type(&WhiteoutSpec::Oci), Some(WhiteoutType::OciRemoval));
    n.build_node_overlay(WhiteoutSpec::Oci);
    assert_eq!(n.overlay, Overlay::UpperRemove);
    assert!(n.is_remove());
    assert!(!n.is_opaque());
}

#[test]
fn plain_names_are_no_markers() {
    let mut n = node("wh.data", EntryKind::RegularFile, Overlay::Unset);
    assert_eq!(n.whiteout_type(&WhiteoutSpec::Oci), None);
    n.build_node_overlay(WhiteoutSpec::Oci);
    assert_eq!(n.overlay, Overlay::Unset);
    assert!(!n.is_whiteout());

    // Shorter than the prefix, and no marker either.
    let mut s = node(".wh", EntryKind::RegularFile, Overlay::Unset);
    assert_eq!(s.whiteout_type(&WhiteoutSpec::Oci), None);
    s.build_node_overlay(WhiteoutSpec::Oci);
    assert_eq!(s.overlay, Overlay::Unset);
}

/// A node of the base layer is never read as a marker, whatever its
/// name.
#[test]
fn lower_nodes_are_never_markers() {
    let n = node(".wh.data", EntryKind::RegularFile, Overlay::Lower);
    assert_eq!(n.whiteout_type(&WhiteoutSpec::Oci), None);
    let m = node("dev", EntryKind::CharDevice { major: 0, minor: 0 }, Overlay::Lower);
    assert_eq!(m.whiteout_type(&WhiteoutSpec::Overlayfs), None);
}

/// The overlayfs removal marker is a character device numbered 0/0 —
/// and only 0/0.
#[test]
fn overlayfs_zero_chardev_is_a_removal() {
    let mut n = node("victim", EntryKind::CharDevice { major: 0, minor: 0 }, Overlay::Unset);
    assert!(n.is_overlayfs_whiteout(&WhiteoutSpec::Overlayfs));
    assert!(!n.is_overlayfs_whiteout(&WhiteoutSpec::Oci));
    assert_eq!(
        n.whiteout_type(&WhiteoutSpec::Overlayfs),
        Some(WhiteoutType::OverlayFsRemoval)
    );
    n.build_node_overlay(WhiteoutSpec::Overlayfs);
    assert_eq!(n.overlay, Overlay::UpperRemove);

    let real = node("tty", EntryKind::CharDevice { major: 5, minor: 0 }, Overlay::Unset);
    assert!(!real.is_overlayfs_whiteout(&WhiteoutSpec::Overlayfs));
    assert_eq!(real.whiteout_type(&WhiteoutSpec::Overlayfs), None);
}

/// The overlayfs opaque marker is a directory whose opaque attribute
/// holds exactly the one-byte value `y`.
#[test]
fn overlayfs_opaque_xattr_marks_a_directory() {
    let mut n = node("a", EntryKind::Directory, Overlay::Unset);
    n.xattrs.add("trusted.overlay.opaque".to_string(), vec![b'y']);
    assert!(n.is_overlayfs_opaque(&WhiteoutSpec::Overlayfs));
    assert!(!n.is_overlayfs_opaque(&WhiteoutSpec::Oci));
    assert_eq!(
        n.whiteout_type(&WhiteoutSpec::Overlayfs),
        Some(WhiteoutType::OverlayFsOpaque)
    );
    n.build_node_overlay(WhiteoutSpec::Overlayfs);
    assert_eq!(n.overlay, Overlay::UpperOpaque);
}

#[test]
fn overlayfs_opaque_needs_the_exact_value() {
    let mut wrong = node("a", EntryKind::Directory, Overlay::Unset);
    wrong.xattrs.add("trusted.overlay.opaque".to_string(), vec![b'n']);
    assert!(!wrong.is_overlayfs_opaque(&WhiteoutSpec::Overlayfs));
    wrong.build_node_overlay(WhiteoutSpec::Overlayfs);
    assert_eq!(wrong.overlay, Overlay::Unset);

    let mut long = node("a", EntryKind::Directory, Overlay::Unset);
    long.xattrs.add("trusted.overlay.opaque".to_string(), vec![b'y', b'y']);
    assert!(!long.is_overlayfs_opaque(&WhiteoutSpec::Overlayfs));

    let mut missing = node("a", EntryKind::Directory, Overlay::Unset);
    missing.xattrs.add("user.note".to_string(), vec![b'y']);
    assert!(!missing.is_overlayfs_opaque(&WhiteoutSpec::Overlayfs));
}

/// Only a directory carries the opaque role at build time, even with
/// the attribute set.
#[test]
fn overlayfs_opaque_role_needs_a_directory() {
    let mut n = node("a", EntryKind::RegularFile, Overlay::Unset);
    n.xattrs.add("trusted.overlay.opaque".to_string(), vec![b'y']);
    n.build_node_overlay(WhiteoutSpec::Overlayfs);
    assert_eq!(n.overlay, Overlay::Unset);
}

#[test]
fn entry_kind_queries() {
    let d = node("d", EntryKind::Directory, Overlay::Lower);
    assert!(d.is_directory());
    assert!(!d.is_general_file());
    let f = node("f", EntryKind::RegularFile, Overlay::Lower);
    assert!(f.is_general_file());
    assert!(!f.is_directory());
    let o = node("o", EntryKind::Other, Overlay::Lower);
    assert!(!o.is_directory());
    assert!(!o.is_general_file());
}

#[test]
fn xattrs_store_and_override() {
    let mut x = XAttrs::new();
    assert!(x.get(&"k".to_string()).is_none());
    x.add("k".to_string(), vec![1, 2]);
    assert_eq!(x.get(&"k".to_string()), Some(&vec![1u8, 2u8]));
    x.add("k".to_string(), vec![3]);
    assert_eq!(x.get(&"k".to_string()), Some(&vec![3u8]));
    x.add("other".to_string(), vec![]);
    assert_eq!(x.get(&"other".to_string()), Some(&vec![]));
    assert_eq!(x.get(&"k".to_string()), Some(&vec![3u8]));
}

#[test]
fn whiteout_flag_selects_the_convention() {
    let oci = MergeTreeOpt {
        base_path: "base".to_string(),
        upper_path_list: vec!["u1".to_string()],
        whiteout: 0,
    };
    assert_eq!(oci.whiteout_spec(), WhiteoutSpec::Oci);
    let ovl = MergeTreeOpt {
        base_path: "base".to_string(),
        upper_path_list: vec![],
        whiteout: 1,
    };
    assert_eq!(ovl.whiteout_spec(), WhiteoutSpec::Overlayfs);
    let other = MergeTreeOpt {
        base_path: "base".to_string(),
        upper_path_list: vec![],
        whiteout: 7,
    };
    assert_eq!(other.whiteout_spec(), WhiteoutSpec::Oci);
}
