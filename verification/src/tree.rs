//! The tree of filesystem entries and its classification under a
//! whiteout convention.
//!
//! A snapshot is a rooted tree of [`TreeNode`]s; each node owns its
//! children outright.  Every contract speaks over [`NodeView`], the
//! mathematical shape of such a tree.

use crate::xattrs::XAttrs;
use vstd::prelude::*;

verus! {

/// The layer role of an entry, assigned once when a snapshot is built.
#[derive(Clone, Copy, PartialEq, Eq, Structural, Debug)]
pub enum Overlay {
    Unset,
    Lower,
    UpperAddition,
    UpperOpaque,
    UpperRemove,
}

/// Which whiteout convention a merge session follows.
#[derive(Clone, Copy, PartialEq, Eq, Structural, Debug)]
pub enum WhiteoutSpec {
    /// Filename-based markers: `.wh.<name>` and `.wh..wh..opq`.
    Oci,
    /// Kernel overlayfs markers: a 0/0 character device and the
    /// `trusted.overlay.opaque` extended attribute.
    Overlayfs,
}

/// The fine-grained marker type, derived on demand from stored fields.
#[derive(Clone, Copy, PartialEq, Eq, Structural, Debug)]
pub enum WhiteoutType {
    OciOpaque,
    OciRemoval,
    OverlayFsOpaque,
    OverlayFsRemoval,
}

/// What an entry is, as far as classification needs to know: the type
/// bits reduced to the cases the merge distinguishes, with the device
/// numbers kept for character-special entries.
#[derive(Clone, Copy, PartialEq, Eq, Structural, Debug)]
pub enum EntryKind {
    Directory,
    RegularFile,
    CharDevice { major: u64, minor: u64 },
    Other,
}

/// One node of a snapshot tree: a single path segment with its
/// classification data and its children, owned outright.
pub struct TreeNode {
    pub name: String,
    pub kind: EntryKind,
    pub overlay: Overlay,
    pub xattrs: XAttrs,
    pub children: Vec<TreeNode>,
}

/// A whole snapshot: the tree under one root that stands for `/`.
/// Snapshot builders fill one from some source and resolve each
/// node's role before the merge engine sees it.
pub struct FileSystemTree {
    pub data: TreeNode,
}

/// The mathematical shape of a tree node, over which all contracts
/// speak.
pub struct NodeView {
    pub name: Seq<char>,
    pub kind: EntryKind,
    pub overlay: Overlay,
    pub xattrs: Map<Seq<char>, Seq<u8>>,
    pub children: Seq<NodeView>,
}

pub open spec fn node_view(t: TreeNode) -> NodeView
    decreases t, 0int,
{
    NodeView {
        name: t.name@,
        kind: t.kind,
        overlay: t.overlay,
        xattrs: t.xattrs@,
        children: children_view(t.children@, 0),
    }
}

pub open spec fn children_view(s: Seq<TreeNode>, i: int) -> Seq<NodeView>
    decreases s, s.len() - i,
{
    if i < 0 || i >= s.len() {
        Seq::empty()
    } else {
        seq![node_view(s[i])] + children_view(s, i + 1)
    }
}

/// The view of a suffix of a child list holds the views of its
/// elements, in order.
pub proof fn lemma_children_view(s: Seq<TreeNode>, i: int)
    requires
        0 <= i <= s.len(),
    ensures
        children_view(s, i).len() == s.len() - i,
        forall|j: int|
            0 <= j < s.len() - i ==> children_view(s, i)[j] == node_view(s[i + j]),
    decreases s.len() - i,
{
    if i < s.len() {
        lemma_children_view(s, i + 1);
    }
}

/// Whether the path `p`, read as a sequence of names, leads from `t`
/// down into the tree.  The empty path is `t` itself.
pub open spec fn has_path(t: NodeView, p: Seq<Seq<char>>) -> bool
    decreases p.len(),
{
    p.len() == 0 || exists|i: int|
        0 <= i < t.children.len() && t.children[i].name == p[0] && has_path(
            t.children[i],
            p.drop_first(),
        )
}

/// Appending a child appends its view.
pub proof fn lemma_children_view_push(s: Seq<TreeNode>, c: TreeNode)
    ensures
        children_view(s.push(c), 0) == children_view(s, 0).push(node_view(c)),
{
    lemma_children_view(s, 0);
    lemma_children_view(s.push(c), 0);
    assert(children_view(s.push(c), 0) =~= children_view(s, 0).push(node_view(c)));
}

/// Detaching a child removes its view.
pub proof fn lemma_children_view_remove(s: Seq<TreeNode>, i: int)
    requires
        0 <= i < s.len(),
    ensures
        children_view(s.remove(i), 0) == children_view(s, 0).remove(i),
{
    lemma_children_view(s, 0);
    lemma_children_view(s.remove(i), 0);
    assert(children_view(s.remove(i), 0) =~= children_view(s, 0).remove(i));
}

/// Exchanging a child exchanges its view.
pub proof fn lemma_children_view_update(s: Seq<TreeNode>, i: int, c: TreeNode)
    requires
        0 <= i < s.len(),
    ensures
        children_view(s.update(i, c), 0) == children_view(s, 0).update(i, node_view(c)),
{
    lemma_children_view(s, 0);
    lemma_children_view(s.update(i, c), 0);
    assert(children_view(s.update(i, c), 0) =~= children_view(s, 0).update(i, node_view(c)));
}

/// The filename prefix that marks an OCI removal whiteout.
pub const OCI_WHITEOUT_PREFIX: &'static str = ".wh.";

/// The filename that marks an OCI opaque directory.
pub const OCI_WHITEOUT_OPAQUE: &'static str = ".wh..wh..opq";

/// The extended-attribute key that marks an overlayfs opaque
/// directory.
pub const OVERLAYFS_WHITEOUT_OPAQUE: &'static str = "trusted.overlay.opaque";

/// The filename prefix that marks an OCI removal whiteout.
pub open spec fn oci_prefix() -> Seq<char> {
    OCI_WHITEOUT_PREFIX@
}

/// The filename that marks an OCI opaque directory.
pub open spec fn oci_opaque_name() -> Seq<char> {
    OCI_WHITEOUT_OPAQUE@
}

/// The extended-attribute key that marks an overlayfs opaque directory.
pub open spec fn overlayfs_opaque_key() -> Seq<char> {
    OVERLAYFS_WHITEOUT_OPAQUE@
}

/// The required value of the overlayfs opaque attribute: the single
/// byte `y`.
pub open spec fn overlayfs_opaque_value() -> Seq<u8> {
    seq!['y' as u8]
}

/// Whether a name begins with the OCI removal prefix.
pub open spec fn has_oci_prefix(s: Seq<char>) -> bool {
    oci_prefix().len() <= s.len() && s.subrange(0, oci_prefix().len() as int) == oci_prefix()
}

/// The name an OCI removal whiteout targets: the suffix after the
/// prefix.
pub open spec fn oci_removal_target(s: Seq<char>) -> Seq<char>
    recommends
        has_oci_prefix(s),
{
    s.subrange(oci_prefix().len() as int, s.len() as int)
}

impl NodeView {
    /// A marker of either sort, by role.
    pub open spec fn is_whiteout(self) -> bool {
        self.overlay == Overlay::UpperRemove || self.overlay == Overlay::UpperOpaque
    }

    /// An overlayfs removal marker: a character device numbered 0/0.
    pub open spec fn is_overlayfs_whiteout(self, ws: WhiteoutSpec) -> bool {
        &&& ws == WhiteoutSpec::Overlayfs
        &&& self.kind == (EntryKind::CharDevice { major: 0u64, minor: 0u64 })
    }

    /// An overlayfs opaque marker: the opaque attribute present with
    /// value `y`.
    pub open spec fn is_overlayfs_opaque(self, ws: WhiteoutSpec) -> bool {
        &&& ws == WhiteoutSpec::Overlayfs
        &&& self.xattrs.contains_key(overlayfs_opaque_key())
        &&& self.xattrs[overlayfs_opaque_key()] == overlayfs_opaque_value()
    }

    /// The fine-grained marker type of this node, re-derived from the
    /// stored fields alone.  A node of the base layer is never a
    /// marker.
    pub open spec fn whiteout_type(self, ws: WhiteoutSpec) -> Option<WhiteoutType> {
        if self.overlay == Overlay::Lower {
            None
        } else {
            match ws {
                WhiteoutSpec::Oci => if self.name == oci_opaque_name() {
                    Some(WhiteoutType::OciOpaque)
                } else if has_oci_prefix(self.name) {
                    Some(WhiteoutType::OciRemoval)
                } else {
                    None
                },
                WhiteoutSpec::Overlayfs => if self.is_overlayfs_whiteout(ws) {
                    Some(WhiteoutType::OverlayFsRemoval)
                } else if self.is_overlayfs_opaque(ws) {
                    Some(WhiteoutType::OverlayFsOpaque)
                } else {
                    None
                },
            }
        }
    }

    /// The role an upper entry receives at snapshot-build time from
    /// its stored fields and the active convention; a plain entry
    /// keeps the role it already carries.
    pub open spec fn classified_role(self, ws: WhiteoutSpec) -> Overlay {
        match ws {
            WhiteoutSpec::Oci => if self.name == oci_opaque_name() {
                Overlay::UpperOpaque
            } else if has_oci_prefix(self.name) {
                Overlay::UpperRemove
            } else {
                self.overlay
            },
            WhiteoutSpec::Overlayfs => if self.is_overlayfs_whiteout(ws) {
                Overlay::UpperRemove
            } else if self.kind == EntryKind::Directory && self.is_overlayfs_opaque(ws) {
                Overlay::UpperOpaque
            } else {
                self.overlay
            },
        }
    }
}

/// Whether a name equals the OCI opaque literal, decided on the
/// character sequence.
fn name_is_oci_opaque(name: &String) -> (r: bool)
    ensures
        r == (name@ == oci_opaque_name()),
{
    let lit: String = OCI_WHITEOUT_OPAQUE.to_owned();
    *name == lit
}

/// Whether a name starts with the OCI removal prefix, decided on the
/// character sequence.
fn name_has_oci_prefix(name: &String) -> (r: bool)
    ensures
        r == has_oci_prefix(name@),
{
    proof {
        reveal_strlit(".wh.");
    }
    let n = name.as_str().unicode_len();
    if n < 4 {
        return false;
    }
    let lit: String = OCI_WHITEOUT_PREFIX.to_owned();
    let head: String = name.as_str().substring_char(0, 4).to_owned();
    head == lit
}

/// The suffix of a name after the OCI removal prefix.
pub(crate) fn name_oci_target(name: &String) -> (r: String)
    requires
        has_oci_prefix(name@),
    ensures
        r@ == oci_removal_target(name@),
{
    proof {
        reveal_strlit(".wh.");
    }
    let n = name.as_str().unicode_len();
    name.as_str().substring_char(4, n).to_owned()
}

impl TreeNode {
    /// A fresh node with no children and no extended attributes.
    pub fn new(name: String, kind: EntryKind, overlay: Overlay) -> (r: TreeNode)
        ensures
            node_view(r) == (NodeView {
                name: name@,
                kind,
                overlay,
                xattrs: Map::<Seq<char>, Seq<u8>>::empty(),
                children: Seq::<NodeView>::empty(),
            }),
    {
        TreeNode { name, kind, overlay, xattrs: XAttrs::new(), children: Vec::new() }
    }

    /// Whether this entry is a directory.
    pub fn is_directory(&self) -> (r: bool)
        ensures
            r == (self.kind == EntryKind::Directory),
    {
        self.kind == EntryKind::Directory
    }

    /// Whether this entry is a regular file.
    pub fn is_general_file(&self) -> (r: bool)
        ensures
            r == (self.kind == EntryKind::RegularFile),
    {
        self.kind == EntryKind::RegularFile
    }

    /// Whether this entry carries a marker role of either sort.
    pub fn is_whiteout(&self) -> (r: bool)
        ensures
            r == node_view(*self).is_whiteout(),
    {
        self.overlay == Overlay::UpperRemove || self.overlay == Overlay::UpperOpaque
    }

    /// Whether this entry carries the removal role.
    pub fn is_remove(&self) -> (r: bool)
        ensures
            r == (self.overlay == Overlay::UpperRemove),
    {
        self.overlay == Overlay::UpperRemove
    }

    /// Whether this entry carries the opaque role.
    pub fn is_opaque(&self) -> (r: bool)
        ensures
            r == (self.overlay == Overlay::UpperOpaque),
    {
        self.overlay == Overlay::UpperOpaque
    }

    /// Whether this entry is an overlayfs removal marker under the
    /// given convention.
    pub fn is_overlayfs_whiteout(&self, ws: &WhiteoutSpec) -> (r: bool)
        ensures
            r == node_view(*self).is_overlayfs_whiteout(*ws),
    {
        if *ws != WhiteoutSpec::Overlayfs {
            return false;
        }
        match self.kind {
            EntryKind::CharDevice { major, minor } => major == 0 && minor == 0,
            _ => false,
        }
    }

    /// Whether this entry is an overlayfs opaque marker under the
    /// given convention.
    pub fn is_overlayfs_opaque(&self, ws: &WhiteoutSpec) -> (r: bool)
        ensures
            r == node_view(*self).is_overlayfs_opaque(*ws),
    {
        if *ws != WhiteoutSpec::Overlayfs {
            return false;
        }
        let key: String = OVERLAYFS_WHITEOUT_OPAQUE.to_owned();
        match self.xattrs.get(&key) {
            Some(v) => {
                let r = v.len() == 1 && v[0] == 'y' as u8;
                proof {
                    if r {
                        assert(v@ =~= overlayfs_opaque_value());
                    } else {
                        assert(v@ != overlayfs_opaque_value());
                    }
                }
                r
            },
            None => false,
        }
    }

    /// The fine-grained marker type of this entry under the given
    /// convention.
    pub fn whiteout_type(&self, ws: &WhiteoutSpec) -> (r: Option<WhiteoutType>)
        ensures
            r == node_view(*self).whiteout_type(*ws),
    {
        if self.overlay == Overlay::Lower {
            return None;
        }
        match *ws {
            WhiteoutSpec::Oci => {
                if name_is_oci_opaque(&self.name) {
                    Some(WhiteoutType::OciOpaque)
                } else if name_has_oci_prefix(&self.name) {
                    Some(WhiteoutType::OciRemoval)
                } else {
                    None
                }
            },
            WhiteoutSpec::Overlayfs => {
                if self.is_overlayfs_whiteout(ws) {
                    Some(WhiteoutType::OverlayFsRemoval)
                } else if self.is_overlayfs_opaque(ws) {
                    Some(WhiteoutType::OverlayFsOpaque)
                } else {
                    None
                }
            },
        }
    }

    /// Classify this entry once, at snapshot-build time, turning a
    /// marker's raw attributes into its role.  Only the role changes;
    /// name, kind, attributes and children stay as they are.
    pub fn build_node_overlay(&mut self, whiteout_spec: WhiteoutSpec)
        ensures
            node_view(*final(self)) == (NodeView {
                overlay: node_view(*old(self)).classified_role(whiteout_spec),
                ..node_view(*old(self))
            }),
    {
        match whiteout_spec {
            WhiteoutSpec::Oci => {
                if name_is_oci_opaque(&self.name) {
                    self.overlay = Overlay::UpperOpaque;
                } else if name_has_oci_prefix(&self.name) {
                    self.overlay = Overlay::UpperRemove;
                }
            },
            WhiteoutSpec::Overlayfs => {
                if self.is_overlayfs_whiteout(&whiteout_spec) {
                    self.overlay = Overlay::UpperRemove;
                } else if self.is_directory() && self.is_overlayfs_opaque(&whiteout_spec) {
                    self.overlay = Overlay::UpperOpaque;
                }
            },
        }
    }
}

} // verus!
