//! The merge engine: a depth-synchronized double traversal that
//! overlays one upper snapshot onto a mutable base tree.
//!
//! For every upper node at depth one or more, the engine locates the
//! first pre-order node of the base tree whose depth is one less and
//! whose name equals the upper node's parent name (the anchor), and
//! applies exactly one action there: a removal, an opaque clear, a
//! replacement, or an addition.  An upper node that finds no anchor,
//! or a removal whose target is already gone, is a benign no-op.

use crate::tree::children_view;
use crate::tree::has_oci_prefix;
use crate::tree::lemma_children_view;
use crate::tree::lemma_children_view_push;
use crate::tree::lemma_children_view_remove;
use crate::tree::lemma_children_view_update;
use crate::tree::node_view;
use crate::tree::oci_removal_target;
use crate::tree::EntryKind;
use crate::tree::FileSystemTree;
use crate::tree::NodeView;
use crate::tree::Overlay;
use crate::tree::TreeNode;
use crate::tree::WhiteoutSpec;
use crate::tree::WhiteoutType;
use vstd::prelude::*;

verus! {

/// The index of the first child with the given name, searching from
/// position `i`.
pub open spec fn find_child_from(s: Seq<NodeView>, name: Seq<char>, i: int) -> Option<int>
    decreases s.len() - i,
{
    if i < 0 || i >= s.len() {
        None
    } else if s[i].name == name {
        Some(i)
    } else {
        find_child_from(s, name, i + 1)
    }
}

/// The index of the first child with the given name, if any.
pub open spec fn find_child(s: Seq<NodeView>, name: Seq<char>) -> Option<int> {
    find_child_from(s, name, 0)
}

/// Detach the first child with the given name; a miss changes nothing.
pub open spec fn remove_named(s: Seq<NodeView>, name: Seq<char>) -> Seq<NodeView> {
    match find_child(s, name) {
        Some(i) => s.remove(i),
        None => s,
    }
}

/// Empty the child list of the first child with the given name; a
/// miss changes nothing.
pub open spec fn clear_named(s: Seq<NodeView>, name: Seq<char>) -> Seq<NodeView> {
    match find_child(s, name) {
        Some(i) => s.update(i, NodeView { children: Seq::empty(), ..s[i] }),
        None => s,
    }
}

/// The node an addition or replacement attaches: the upper entry's
/// name and kind, the addition role, and nothing below it yet.
pub open spec fn new_entry(u: NodeView) -> NodeView {
    NodeView {
        name: u.name,
        kind: u.kind,
        overlay: Overlay::UpperAddition,
        xattrs: Map::empty(),
        children: Seq::empty(),
    }
}

/// What one upper entry does to the child list of its anchor.
///
/// A marker acts as its fine-grained type directs; a marker whose
/// type cannot be derived is a benign no-op.  A plain entry replaces
/// a same-named non-directory match, merges into a same-named
/// directory match by leaving it in place, and is attached as an
/// addition otherwise.
pub open spec fn merge_children(s: Seq<NodeView>, u: NodeView, ws: WhiteoutSpec) -> Seq<
    NodeView,
> {
    if u.is_whiteout() {
        match u.whiteout_type(ws) {
            Some(WhiteoutType::OciRemoval) => remove_named(s, oci_removal_target(u.name)),
            Some(WhiteoutType::OverlayFsRemoval) => remove_named(s, u.name),
            Some(WhiteoutType::OciOpaque) => Seq::empty(),
            Some(WhiteoutType::OverlayFsOpaque) => clear_named(s, u.name),
            None => s,
        }
    } else {
        match find_child(s, u.name) {
            Some(i) => if u.kind == EntryKind::Directory {
                s
            } else {
                s.remove(i).push(new_entry(u))
            },
            None => s.push(new_entry(u)),
        }
    }
}

/// Apply one upper entry at the first pre-order anchor of `t`.
///
/// `remaining` is the number of levels between `t` and the depth the
/// upper entry itself occupies: at `remaining == 1`, `t` sits at the
/// anchor depth and is the anchor exactly when its name equals the
/// upper entry's parent name.  The result carries the mutated tree
/// and whether an anchor was found; branches deeper than the anchor
/// depth are pruned.
pub open spec fn apply_upper_node(
    t: NodeView,
    u: NodeView,
    u_parent: Seq<char>,
    remaining: nat,
    ws: WhiteoutSpec,
) -> (NodeView, bool)
    decreases t, 0int,
{
    if remaining == 1 && t.name == u_parent {
        (NodeView { children: merge_children(t.children, u, ws), ..t }, true)
    } else if remaining <= 1 {
        (t, false)
    } else {
        let r = apply_upper_seq(t.children, 0, u, u_parent, (remaining - 1) as nat, ws);
        (NodeView { children: r.0, ..t }, r.1)
    }
}

/// Apply one upper entry at the first anchor found among the subtrees
/// `s[i..]`, in order; the first success ends the search.
pub open spec fn apply_upper_seq(
    s: Seq<NodeView>,
    i: int,
    u: NodeView,
    u_parent: Seq<char>,
    remaining: nat,
    ws: WhiteoutSpec,
) -> (Seq<NodeView>, bool)
    decreases s, s.len() - i,
{
    if i < 0 || i >= s.len() {
        (s, false)
    } else {
        let r = apply_upper_node(s[i], u, u_parent, remaining, ws);
        if r.1 {
            (s.update(i, r.0), true)
        } else {
            apply_upper_seq(s, i + 1, u, u_parent, remaining, ws)
        }
    }
}

/// Merge the upper subtree rooted at `u`, standing at depth `u_depth`
/// of its snapshot, into `base`: first `u` itself, then its children
/// in order, each against the tree the previous step left behind.
/// The root of an upper snapshot, at depth zero, is never itself a
/// target.  The depth counter is capped at the machine limit; no tree
/// that fits in memory comes anywhere near it.
pub open spec fn merge_subtree(
    base: NodeView,
    u: NodeView,
    u_parent: Seq<char>,
    u_depth: nat,
    ws: WhiteoutSpec,
) -> NodeView
    decreases u, 0int,
{
    let b = if u_depth == 0 {
        base
    } else {
        apply_upper_node(base, u, u_parent, u_depth, ws).0
    };
    if u_depth < u32::MAX {
        merge_seq(b, u.children, 0, u.name, (u_depth + 1) as nat, ws)
    } else {
        b
    }
}

/// Merge the upper subtrees `cs[i..]` in order, each at depth `depth`
/// under a parent named `parent`.
pub open spec fn merge_seq(
    base: NodeView,
    cs: Seq<NodeView>,
    i: int,
    parent: Seq<char>,
    depth: nat,
    ws: WhiteoutSpec,
) -> NodeView
    decreases cs, cs.len() - i,
{
    if i < 0 || i >= cs.len() {
        base
    } else {
        merge_seq(merge_subtree(base, cs[i], parent, depth, ws), cs, i + 1, parent, depth, ws)
    }
}

/// Overlay one whole upper snapshot onto `base`: every upper node at
/// depth one or more acts once, in pre-order.
pub open spec fn spec_apply_layer(base: NodeView, upper: NodeView, ws: WhiteoutSpec) -> NodeView {
    merge_subtree(base, upper, Seq::empty(), 0, ws)
}

/// A search that found no anchor leaves the subtrees as they were.
pub proof fn lemma_apply_upper_seq_miss(
    s: Seq<NodeView>,
    i: int,
    u: NodeView,
    u_parent: Seq<char>,
    remaining: nat,
    ws: WhiteoutSpec,
)
    ensures
        !apply_upper_seq(s, i, u, u_parent, remaining, ws).1 ==> apply_upper_seq(
            s,
            i,
            u,
            u_parent,
            remaining,
            ws,
        ).0 == s,
    decreases s.len() - i,
{
    if 0 <= i < s.len() {
        lemma_apply_upper_seq_miss(s, i + 1, u, u_parent, remaining, ws);
    }
}

/// A search that found no anchor leaves the tree as it was.
pub proof fn lemma_apply_upper_node_miss(
    t: NodeView,
    u: NodeView,
    u_parent: Seq<char>,
    remaining: nat,
    ws: WhiteoutSpec,
)
    ensures
        !apply_upper_node(t, u, u_parent, remaining, ws).1 ==> apply_upper_node(
            t,
            u,
            u_parent,
            remaining,
            ws,
        ).0 == t,
{
    if !(remaining == 1 && t.name == u_parent) && remaining > 1 {
        lemma_apply_upper_seq_miss(t.children, 0, u, u_parent, (remaining - 1) as nat, ws);
    }
}

/// Find the first child with the given name.
fn find_child_exec(children: &Vec<TreeNode>, name: &String) -> (r: Option<usize>)
    ensures
        match r {
            Some(i) => i < children@.len() && find_child(children_view(children@, 0), name@)
                == Some(i as int),
            None => find_child(children_view(children@, 0), name@) == None::<int>,
        },
{
    let ghost cv = children_view(children@, 0);
    proof {
        lemma_children_view(children@, 0);
    }
    let n = children.len();
    let mut i: usize = 0;
    while i < n
        invariant
            i <= n,
            n == children@.len(),
            cv == children_view(children@, 0),
            cv.len() == children@.len(),
            forall|j: int| 0 <= j < cv.len() ==> cv[j] == node_view(children@[j]),
            find_child_from(cv, name@, 0) == find_child_from(cv, name@, i as int),
        decreases n - i,
    {
        if children[i].name == *name {
            return Some(i);
        }
        i = i + 1;
    }
    None
}

/// Detach the first child with the given name, if one is there.
fn remove_child_named(children: &mut Vec<TreeNode>, target: &String)
    ensures
        children_view(final(children)@, 0) == remove_named(
            children_view(old(children)@, 0),
            target@,
        ),
{
    match find_child_exec(children, target) {
        Some(i) => {
            children.remove(i);
            proof {
                lemma_children_view_remove(old(children)@, i as int);
            }
        },
        None => {},
    }
}

/// Empty the child list of the first child with the given name, if
/// one is there.
fn clear_child_named(children: &mut Vec<TreeNode>, target: &String)
    ensures
        children_view(final(children)@, 0) == clear_named(
            children_view(old(children)@, 0),
            target@,
        ),
{
    match find_child_exec(children, target) {
        Some(i) => {
            let mut c = children.remove(i);
            c.children = Vec::new();
            let ghost cleared = c;
            children.insert(i, c);
            proof {
                assert(old(children)@.remove(i as int).insert(i as int, cleared) =~= old(
                    children,
                )@.update(i as int, cleared));
                lemma_children_view_update(old(children)@, i as int, cleared);
                lemma_children_view(old(children)@, 0);
            }
        },
        None => {},
    }
}

/// Apply one upper entry to the child list of its anchor.
fn apply_to_children(children: &mut Vec<TreeNode>, u: &TreeNode, ws: WhiteoutSpec)
    ensures
        children_view(final(children)@, 0) == merge_children(
            children_view(old(children)@, 0),
            node_view(*u),
            ws,
        ),
{
    if u.is_whiteout() {
        match u.whiteout_type(&ws) {
            Some(WhiteoutType::OciRemoval) => {
                proof {
                    assert(has_oci_prefix(node_view(*u).name));
                }
                let target = crate::tree::name_oci_target(&u.name);
                remove_child_named(children, &target);
            },
            Some(WhiteoutType::OverlayFsRemoval) => {
                remove_child_named(children, &u.name);
            },
            Some(WhiteoutType::OciOpaque) => {
                children.clear();
            },
            Some(WhiteoutType::OverlayFsOpaque) => {
                clear_child_named(children, &u.name);
            },
            None => {},
        }
    } else {
        let attach = match find_child_exec(children, &u.name) {
            Some(i) => {
                if !u.is_directory() {
                    children.remove(i);
                    proof {
                        lemma_children_view_remove(old(children)@, i as int);
                    }
                    true
                } else {
                    false
                }
            },
            None => true,
        };
        if attach {
            let node = TreeNode::new(u.name.clone(), u.kind, Overlay::UpperAddition);
            let ghost attached = node;
            let ghost before = children@;
            children.push(node);
            proof {
                lemma_children_view_push(before, attached);
            }
        }
    }
}

/// Walk the base tree for the first anchor of one upper entry and
/// apply the entry's action there.
fn apply_upper_node_exec(
    t: &mut TreeNode,
    u: &TreeNode,
    u_parent: &String,
    remaining: u32,
    ws: WhiteoutSpec,
) -> (found: bool)
    requires
        remaining >= 1,
    ensures
        ({
            let r = apply_upper_node(
                node_view(*old(t)),
                node_view(*u),
                u_parent@,
                remaining as nat,
                ws,
            );
            node_view(*final(t)) == r.0 && found == r.1
        }),
    decreases remaining,
{
    if remaining == 1 {
        if t.name == *u_parent {
            apply_to_children(&mut t.children, u, ws);
            return true;
        }
        return false;
    }
    let ghost t0 = *t;
    let ghost cs0 = children_view(t0.children@, 0);
    let ghost uv = node_view(*u);
    let ghost target = apply_upper_seq(cs0, 0, uv, u_parent@, (remaining - 1) as nat, ws);
    proof {
        lemma_children_view(t0.children@, 0);
    }
    let n = t.children.len();
    let mut found = false;
    let mut i: usize = 0;
    while i < n && !found
        invariant
            i <= n,
            n == t.children@.len(),
            remaining >= 2,
            t.name@ == t0.name@,
            t.kind == t0.kind,
            t.overlay == t0.overlay,
            t.xattrs@ == t0.xattrs@,
            cs0 == children_view(t0.children@, 0),
            cs0.len() == n,
            target == apply_upper_seq(cs0, 0, uv, u_parent@, (remaining - 1) as nat, ws),
            uv == node_view(*u),
            forall|j: int| 0 <= j < n ==> cs0[j] == node_view(t0.children@[j]),
            !found ==> children_view(t.children@, 0) == cs0 && target == apply_upper_seq(
                cs0,
                i as int,
                uv,
                u_parent@,
                (remaining - 1) as nat,
                ws,
            ),
            found ==> children_view(t.children@, 0) == target.0 && target.1,
        decreases n - i,
    {
        let ghost before = t.children@;
        let mut c = t.children.remove(i);
        let ghost c0 = c;
        found = apply_upper_node_exec(&mut c, u, u_parent, remaining - 1, ws);
        let ghost c1 = c;
        t.children.insert(i, c);
        proof {
            assert(before.remove(i as int).insert(i as int, c1) =~= before.update(i as int, c1));
            lemma_children_view_update(before, i as int, c1);
            lemma_children_view(before, 0);
            let r = apply_upper_node(node_view(c0), uv, u_parent@, (remaining - 1) as nat, ws);
            if !found {
                lemma_apply_upper_node_miss(node_view(c0), uv, u_parent@, (remaining - 1) as nat, ws);
                assert(children_view(t.children@, 0) =~= cs0);
            } else {
                assert(children_view(t.children@, 0) =~= cs0.update(i as int, r.0));
            }
        }
        i = i + 1;
    }
    proof {
        if !found {
            assert(node_view(*t) =~= node_view(t0));
        }
    }
    found
}

/// Merge the upper subtree rooted at `u` into the base tree: `u`
/// itself first, then its children in order.
fn merge_subtree_exec(
    base: &mut TreeNode,
    u: &TreeNode,
    u_parent: &String,
    u_depth: u32,
    ws: WhiteoutSpec,
)
    ensures
        node_view(*final(base)) == merge_subtree(
            node_view(*old(base)),
            node_view(*u),
            u_parent@,
            u_depth as nat,
            ws,
        ),
    decreases *u,
{
    if u_depth >= 1 {
        let _found = apply_upper_node_exec(base, u, u_parent, u_depth, ws);
    }
    if u_depth < u32::MAX {
        let ghost b1 = node_view(*base);
        let ghost cs = children_view(u.children@, 0);
        let ghost uv = node_view(*u);
        proof {
            lemma_children_view(u.children@, 0);
        }
        let n = u.children.len();
        let mut i: usize = 0;
        while i < n
            invariant
                i <= n,
                n == u.children@.len(),
                u_depth < u32::MAX,
                cs == children_view(u.children@, 0),
                cs.len() == n,
                uv == node_view(*u),
                forall|j: int| 0 <= j < n ==> cs[j] == node_view(u.children@[j]),
                merge_seq(b1, cs, 0, uv.name, (u_depth + 1) as nat, ws) == merge_seq(
                    node_view(*base),
                    cs,
                    i as int,
                    uv.name,
                    (u_depth + 1) as nat,
                    ws,
                ),
            decreases n - i,
        {
            merge_subtree_exec(base, &u.children[i], &u.name, u_depth + 1, ws);
            i = i + 1;
        }
    }
}

/// The merge session: owns the evolving base tree that every layer is
/// folded onto.
pub struct BuildTree {
    pub base_tree: FileSystemTree,
}

impl BuildTree {
    /// Start a session over the given base snapshot.
    pub fn new(base_tree: FileSystemTree) -> (r: BuildTree)
        ensures
            r.base_tree == base_tree,
    {
        BuildTree { base_tree }
    }

    /// Overlay the upper subtree `node`, standing at depth `level` of
    /// its snapshot, onto the base tree.  Handing a snapshot's root
    /// with `level` zero overlays the whole snapshot; the root itself
    /// is never a target.
    pub fn apply_tree_by_dfs(&mut self, node: &TreeNode, level: u32, whiteout_spec: WhiteoutSpec)
        ensures
            node_view(final(self).base_tree.data) == merge_subtree(
                node_view(old(self).base_tree.data),
                node_view(*node),
                Seq::<char>::empty(),
                level as nat,
                whiteout_spec,
            ),
    {
        let no_parent = String::new();
        merge_subtree_exec(&mut self.base_tree.data, node, &no_parent, level, whiteout_spec);
    }

    /// Overlay one whole upper snapshot onto the base tree.
    pub fn apply_layer(&mut self, upper: &FileSystemTree, whiteout_spec: WhiteoutSpec)
        ensures
            node_view(final(self).base_tree.data) == spec_apply_layer(
                node_view(old(self).base_tree.data),
                node_view(upper.data),
                whiteout_spec,
            ),
    {
        self.apply_tree_by_dfs(&upper.data, 0, whiteout_spec);
    }

    /// Fold a stack of upper snapshots onto the base tree, strictly
    /// left to right: each layer lands on the result the previous one
    /// left behind, so a later layer wins where two touch the same
    /// path.
    pub fn apply_layers(&mut self, uppers: &Vec<FileSystemTree>, whiteout_spec: WhiteoutSpec)
        ensures
            node_view(final(self).base_tree.data) == spec_apply_layers(
                node_view(old(self).base_tree.data),
                layer_views(uppers@),
                0,
                whiteout_spec,
            ),
    {
        let ghost b0 = node_view(self.base_tree.data);
        let ghost lv = layer_views(uppers@);
        let n = uppers.len();
        let mut i: usize = 0;
        while i < n
            invariant
                i <= n,
                n == uppers@.len(),
                lv == layer_views(uppers@),
                spec_apply_layers(b0, lv, 0, whiteout_spec) == spec_apply_layers(
                    node_view(self.base_tree.data),
                    lv,
                    i as int,
                    whiteout_spec,
                ),
            decreases n - i,
        {
            self.apply_layer(&uppers[i], whiteout_spec);
            i = i + 1;
        }
    }
}

/// The views of a stack of snapshots, in order.
pub open spec fn layer_views(s: Seq<FileSystemTree>) -> Seq<NodeView> {
    Seq::new(s.len(), |i: int| node_view(s[i].data))
}

/// Folding the layers `layers[i..]` onto `base`, strictly left to
/// right.
pub open spec fn spec_apply_layers(
    base: NodeView,
    layers: Seq<NodeView>,
    i: int,
    ws: WhiteoutSpec,
) -> NodeView
    decreases layers.len() - i,
{
    if i < 0 || i >= layers.len() {
        base
    } else {
        spec_apply_layers(spec_apply_layer(base, layers[i], ws), layers, i + 1, ws)
    }
}

} // verus!
