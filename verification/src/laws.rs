//! Laws of the merge: what holds of classification and of the four
//! anchor actions for every input, stated and proved over the same
//! spec functions the engine's contracts use.

use crate::merge::apply_upper_node;
use crate::merge::apply_upper_seq;
use crate::merge::clear_named;
use crate::merge::find_child;
use crate::merge::find_child_from;
use crate::merge::merge_children;
use crate::merge::merge_seq;
use crate::merge::merge_subtree;
use crate::merge::new_entry;
use crate::merge::remove_named;
use crate::merge::spec_apply_layer;
use crate::merge::spec_apply_layers;
use crate::tree::has_oci_prefix;
use crate::tree::has_path;
use crate::tree::oci_opaque_name;
use crate::tree::oci_prefix;
use crate::tree::oci_removal_target;
use crate::tree::EntryKind;
use crate::tree::NodeView;
use crate::tree::Overlay;
use crate::tree::WhiteoutSpec;
use crate::tree::WhiteoutType;
use vstd::prelude::*;

verus! {

/// Sibling names are unique: the precondition every snapshot builder
/// owes the merge engine.
pub open spec fn unique_names(s: Seq<NodeView>) -> bool {
    forall|i: int, j: int| 0 <= i < j < s.len() ==> s[i].name != s[j].name
}

/// Sibling names are unique everywhere in the tree.
pub open spec fn wf_names(t: NodeView) -> bool
    decreases t,
{
    unique_names(t.children) && forall|i: int|
        0 <= i < t.children.len() ==> wf_names(#[trigger] t.children[i])
}

/// What a child search returns: the first index carrying the name, or
/// nothing when no child carries it.
pub proof fn lemma_find_child_props(s: Seq<NodeView>, name: Seq<char>, i: int)
    requires
        0 <= i <= s.len(),
    ensures
        match find_child_from(s, name, i) {
            Some(k) => i <= k < s.len() && s[k].name == name && (forall|j: int|
                i <= j < k ==> s[j].name != name),
            None => forall|j: int| i <= j < s.len() ==> s[j].name != name,
        },
    decreases s.len() - i,
{
    if i < s.len() {
        lemma_find_child_props(s, name, i + 1);
    }
}

/// A child search reads names alone: two lists that agree on names
/// agree on the search.
pub proof fn lemma_find_child_same_names(
    a: Seq<NodeView>,
    b: Seq<NodeView>,
    name: Seq<char>,
    i: int,
)
    requires
        a.len() == b.len(),
        forall|j: int| 0 <= j < a.len() ==> a[j].name == b[j].name,
        0 <= i <= a.len(),
    ensures
        find_child_from(a, name, i) == find_child_from(b, name, i),
    decreases a.len() - i,
{
    if i < a.len() {
        lemma_find_child_same_names(a, b, name, i + 1);
    }
}

/// The OCI opaque literal is never read as a removal: although its
/// name carries the removal prefix, it classifies as opaque, because
/// the opaque check comes first.
pub proof fn lemma_oci_opaque_literal_is_opaque(n: NodeView)
    requires
        n.name == oci_opaque_name(),
        n.overlay != Overlay::Lower,
    ensures
        has_oci_prefix(n.name),
        n.whiteout_type(WhiteoutSpec::Oci) == Some(WhiteoutType::OciOpaque),
        n.classified_role(WhiteoutSpec::Oci) == Overlay::UpperOpaque,
{
    reveal_strlit(".wh.");
    reveal_strlit(".wh..wh..opq");
    assert(oci_opaque_name().subrange(0, oci_prefix().len() as int) =~= oci_prefix());
}

/// An OCI opaque action leaves its anchor no children at all, and with
/// them every deeper descendant disappears, however far down it stood.
pub proof fn lemma_oci_opaque_clears_all(
    s: Seq<NodeView>,
    u: NodeView,
    ws: WhiteoutSpec,
    anchor: NodeView,
)
    requires
        u.is_whiteout(),
        u.whiteout_type(ws) == Some(WhiteoutType::OciOpaque),
    ensures
        merge_children(s, u, ws) == Seq::<NodeView>::empty(),
        forall|p: Seq<Seq<char>>|
            p.len() >= 1 ==> !has_path(
                NodeView { children: merge_children(s, u, ws), ..anchor },
                p,
            ),
{
}

/// An overlayfs opaque action empties the child list of the directory
/// carrying the attribute — every pre-existing descendant beneath it
/// disappears, however far down it stood — and touches nothing else;
/// with no such directory in place it is a no-op.
pub proof fn lemma_overlayfs_opaque_clears_all(s: Seq<NodeView>, u: NodeView, ws: WhiteoutSpec)
    requires
        u.is_whiteout(),
        u.whiteout_type(ws) == Some(WhiteoutType::OverlayFsOpaque),
    ensures
        ({
            let r = merge_children(s, u, ws);
            match find_child(s, u.name) {
                Some(i) => {
                    &&& r.len() == s.len()
                    &&& r[i].name == s[i].name
                    &&& r[i].children.len() == 0
                    &&& (forall|p: Seq<Seq<char>>| p.len() >= 1 ==> !has_path(r[i], p))
                    &&& (forall|j: int| 0 <= j < s.len() && j != i ==> r[j] == s[j])
                },
                None => r == s,
            }
        }),
{
    lemma_find_child_props(s, u.name, 0);
}

/// Applying a whiteout action a second time to the child list it
/// already acted on changes nothing: removals find their target gone,
/// opaque clears find nothing left to clear.
pub proof fn lemma_whiteout_idempotent(s: Seq<NodeView>, u: NodeView, ws: WhiteoutSpec)
    requires
        u.is_whiteout(),
        unique_names(s),
    ensures
        merge_children(merge_children(s, u, ws), u, ws) == merge_children(s, u, ws),
{
    match u.whiteout_type(ws) {
        Some(WhiteoutType::OciRemoval) => {
            lemma_removal_idempotent(s, oci_removal_target(u.name));
        },
        Some(WhiteoutType::OverlayFsRemoval) => {
            lemma_removal_idempotent(s, u.name);
        },
        Some(WhiteoutType::OciOpaque) => {
        },
        Some(WhiteoutType::OverlayFsOpaque) => {
            lemma_clear_idempotent(s, u.name);
        },
        None => {
        },
    }
}

/// Removing a name from a duplicate-free child list twice equals
/// removing it once: the second removal finds nothing.
proof fn lemma_removal_idempotent(s: Seq<NodeView>, t: Seq<char>)
    requires
        unique_names(s),
    ensures
        remove_named(remove_named(s, t), t) == remove_named(s, t),
{
    lemma_find_child_props(s, t, 0);
    match find_child(s, t) {
        Some(i) => {
            let r = s.remove(i);
            assert forall|j: int| 0 <= j < r.len() implies r[j].name != t by {
                if j < i {
                    assert(r[j] == s[j]);
                } else {
                    assert(r[j] == s[j + 1]);
                }
            }
            lemma_find_child_props(r, t, 0);
            match find_child(r, t) {
                Some(k) => {
                    assert(false);
                },
                None => {
                },
            }
        },
        None => {
        },
    }
}

/// Emptying the child list of a named child twice equals doing it
/// once: the second pass finds the same child, already empty.
proof fn lemma_clear_idempotent(s: Seq<NodeView>, t: Seq<char>)
    ensures
        clear_named(clear_named(s, t), t) == clear_named(s, t),
{
    lemma_find_child_props(s, t, 0);
    match find_child(s, t) {
        Some(i) => {
            let r = s.update(i, NodeView { children: Seq::empty(), ..s[i] });
            lemma_find_child_same_names(s, r, t, 0);
            assert(r.update(i, NodeView { children: Seq::empty(), ..r[i] }) =~= r);
        },
        None => {
        },
    }
}

/// A search that starts at position `i` leaves every child before
/// `i` as it was, and never changes how many children there are.
proof fn lemma_apply_upper_seq_untouched(
    s: Seq<NodeView>,
    i: int,
    u: NodeView,
    u_parent: Seq<char>,
    remaining: nat,
    ws: WhiteoutSpec,
)
    requires
        0 <= i <= s.len(),
    ensures
        apply_upper_seq(s, i, u, u_parent, remaining, ws).0.len() == s.len(),
        forall|j: int|
            0 <= j < i ==> apply_upper_seq(s, i, u, u_parent, remaining, ws).0[j] == s[j],
    decreases s.len() - i,
{
    if i < s.len() {
        lemma_apply_upper_seq_untouched(s, i + 1, u, u_parent, remaining, ws);
    }
}

/// Applying one whiteout entry to a well-formed tree a second time
/// changes nothing: the search settles on the same anchor, whose
/// child list the first pass already settled.
pub proof fn lemma_whiteout_apply_twice(
    t: NodeView,
    u: NodeView,
    u_parent: Seq<char>,
    remaining: nat,
    ws: WhiteoutSpec,
)
    requires
        u.is_whiteout(),
        wf_names(t),
    ensures
        apply_upper_node(
            apply_upper_node(t, u, u_parent, remaining, ws).0,
            u,
            u_parent,
            remaining,
            ws,
        ) == apply_upper_node(t, u, u_parent, remaining, ws),
    decreases t, 0int,
{
    if remaining == 1 && t.name == u_parent {
        lemma_whiteout_idempotent(t.children, u, ws);
    } else if remaining <= 1 {
    } else {
        lemma_whiteout_seq_twice(t.children, 0, u, u_parent, (remaining - 1) as nat, ws);
    }
}

/// The sequence form of the second-application law: re-running the
/// anchor search over the subtrees it already acted on reproduces its
/// own result.
proof fn lemma_whiteout_seq_twice(
    s: Seq<NodeView>,
    i: int,
    u: NodeView,
    u_parent: Seq<char>,
    remaining: nat,
    ws: WhiteoutSpec,
)
    requires
        u.is_whiteout(),
        0 <= i <= s.len(),
        forall|j: int| 0 <= j < s.len() ==> wf_names(#[trigger] s[j]),
    ensures
        ({
            let r = apply_upper_seq(s, i, u, u_parent, remaining, ws);
            apply_upper_seq(r.0, i, u, u_parent, remaining, ws) == r
        }),
    decreases s, s.len() - i,
{
    if 0 <= i < s.len() {
        let rn = apply_upper_node(s[i], u, u_parent, remaining, ws);
        if rn.1 {
            lemma_whiteout_apply_twice(s[i], u, u_parent, remaining, ws);
            let s2 = s.update(i, rn.0);
            assert(s2[i] == rn.0);
            assert(s2.update(i, rn.0) =~= s2);
        } else {
            lemma_whiteout_seq_twice(s, i + 1, u, u_parent, remaining, ws);
            lemma_apply_upper_seq_untouched(s, i + 1, u, u_parent, remaining, ws);
            let r = apply_upper_seq(s, i + 1, u, u_parent, remaining, ws);
            assert(r.0[i] == s[i]);
        }
    }
}

/// A whiteout entry with nothing below it merges idempotently at the
/// whole-tree level: overlaying it a second time onto the tree it
/// already acted on is a no-op.
pub proof fn lemma_whiteout_subtree_twice(
    base: NodeView,
    u: NodeView,
    u_parent: Seq<char>,
    u_depth: nat,
    ws: WhiteoutSpec,
)
    requires
        u.is_whiteout(),
        u.children.len() == 0,
        u_depth >= 1,
        wf_names(base),
    ensures
        merge_subtree(merge_subtree(base, u, u_parent, u_depth, ws), u, u_parent, u_depth, ws)
            == merge_subtree(base, u, u_parent, u_depth, ws),
{
    lemma_whiteout_apply_twice(base, u, u_parent, u_depth, ws);
}

/// Merging one marker-free upper entry: its name is present
/// afterwards; a non-directory entry ends upper-side; a same-named
/// standing child of a directory entry is kept for the children to
/// merge into; and every child under another name survives unchanged.
pub proof fn lemma_plain_entry_lands(s: Seq<NodeView>, u: NodeView, ws: WhiteoutSpec)
    requires
        !u.is_whiteout(),
    ensures
        ({
            let r = merge_children(s, u, ws);
            &&& find_child(r, u.name) is Some
            &&& (u.kind != EntryKind::Directory ==> exists|k: int|
                0 <= k < r.len() && r[k] == new_entry(u))
            &&& (u.kind == EntryKind::Directory && find_child(s, u.name) is Some ==> r == s)
            &&& (find_child(s, u.name) is None ==> r == s.push(new_entry(u)))
            &&& (forall|j: int|
                0 <= j < s.len() && s[j].name != u.name ==> exists|k: int|
                    0 <= k < r.len() && r[k] == s[j])
        }),
{
    let r = merge_children(s, u, ws);
    lemma_find_child_props(s, u.name, 0);
    match find_child(s, u.name) {
        Some(i) => {
            if u.kind == EntryKind::Directory {
                assert forall|j: int|
                    0 <= j < s.len() && s[j].name != u.name implies exists|k: int|
                    0 <= k < r.len() && r[k] == s[j] by {
                    assert(r[j] == s[j]);
                }
            } else {
                let base = s.remove(i);
                assert(r == base.push(new_entry(u)));
                assert(r[r.len() - 1] == new_entry(u));
                lemma_find_child_props(r, u.name, 0);
                assert forall|j: int|
                    0 <= j < s.len() && s[j].name != u.name implies exists|k: int|
                    0 <= k < r.len() && r[k] == s[j] by {
                    if j < i {
                        assert(r[j] == s[j]);
                    } else if j > i {
                        assert(r[j - 1] == s[j]);
                    }
                }
            }
        },
        None => {
            assert(r == s.push(new_entry(u)));
            assert(r[r.len() - 1] == new_entry(u));
            lemma_find_child_props(r, u.name, 0);
            assert forall|j: int|
                0 <= j < s.len() && s[j].name != u.name implies exists|k: int|
                0 <= k < r.len() && r[k] == s[j] by {
                assert(r[j] == s[j]);
            }
        },
    }
}

/// A whiteout action only ever takes away: every child left after it
/// stood there before, a removal taking one child with its whole
/// subtree and an opaque clear emptying one directory.  In particular
/// no marker itself lands in the merged tree.
pub proof fn lemma_whiteout_adds_nothing(s: Seq<NodeView>, u: NodeView, ws: WhiteoutSpec)
    requires
        u.is_whiteout(),
    ensures
        ({
            let r = merge_children(s, u, ws);
            &&& r.len() <= s.len()
            &&& (forall|k: int| #![trigger r[k]]
                0 <= k < r.len() ==> exists|j: int|
                    0 <= j < s.len() && (r[k] == s[j] || r[k] == (NodeView {
                        children: Seq::empty(),
                        ..s[j]
                    })))
        }),
{
    let r = merge_children(s, u, ws);
    match u.whiteout_type(ws) {
        Some(WhiteoutType::OciRemoval) => {
            lemma_removal_survivors(s, oci_removal_target(u.name));
        },
        Some(WhiteoutType::OverlayFsRemoval) => {
            lemma_removal_survivors(s, u.name);
        },
        Some(WhiteoutType::OciOpaque) => {
        },
        Some(WhiteoutType::OverlayFsOpaque) => {
            lemma_find_child_props(s, u.name, 0);
            match find_child(s, u.name) {
                Some(i) => {
                    assert forall|k: int| #![trigger r[k]] 0 <= k < r.len() implies exists|j: int|
                        0 <= j < s.len() && (r[k] == s[j] || r[k] == (NodeView {
                            children: Seq::empty(),
                            ..s[j]
                        })) by {
                        if k != i {
                            assert(r[k] == s[k]);
                        } else {
                            assert(r[k] == (NodeView { children: Seq::empty(), ..s[k] }));
                        }
                    }
                },
                None => {
                },
            }
        },
        None => {
        },
    }
}

/// Every child that survives a removal stood in the list before it.
proof fn lemma_removal_survivors(s: Seq<NodeView>, t: Seq<char>)
    ensures
        ({
            let r = remove_named(s, t);
            &&& r.len() <= s.len()
            &&& (forall|k: int| #![trigger r[k]]
                0 <= k < r.len() ==> exists|j: int| 0 <= j < s.len() && r[k] == s[j])
        }),
{
    lemma_find_child_props(s, t, 0);
    match find_child(s, t) {
        Some(i) => {
            let r = s.remove(i);
            assert forall|k: int| #![trigger r[k]] 0 <= k < r.len() implies exists|j: int|
                0 <= j < s.len() && r[k] == s[j] by {
                if k < i {
                    assert(r[k] == s[k]);
                } else {
                    assert(r[k] == s[k + 1]);
                }
            }
        },
        None => {
        },
    }
}

/// A marker-free upper entry that found its anchor stands in the
/// merged tree: some path of the anchor's depth, extended by the
/// entry's name, leads down from the root afterwards.
pub proof fn lemma_plain_entry_path_lands(
    t: NodeView,
    u: NodeView,
    u_parent: Seq<char>,
    remaining: nat,
    ws: WhiteoutSpec,
)
    requires
        !u.is_whiteout(),
        remaining >= 1,
        apply_upper_node(t, u, u_parent, remaining, ws).1,
    ensures
        exists|q: Seq<Seq<char>>|
            q.len() == remaining && q.last() == u.name && #[trigger] has_path(
                apply_upper_node(t, u, u_parent, remaining, ws).0,
                q,
            ),
    decreases t, 0int,
{
    let t2 = apply_upper_node(t, u, u_parent, remaining, ws).0;
    if remaining == 1 && t.name == u_parent {
        lemma_plain_entry_lands(t.children, u, ws);
        let r = merge_children(t.children, u, ws);
        lemma_find_child_props(r, u.name, 0);
        let k = find_child(r, u.name)->Some_0;
        let q = seq![u.name];
        assert(q.drop_first() =~= Seq::<Seq<char>>::empty());
        assert(has_path(r[k], q.drop_first()));
        assert(has_path(t2, q));
    } else {
        lemma_plain_entry_path_seq(t.children, 0, u, u_parent, (remaining - 1) as nat, ws);
        let s = t.children;
        let rr = apply_upper_seq(s, 0, u, u_parent, (remaining - 1) as nat, ws);
        let q0 = choose|q0: Seq<Seq<char>>|
            q0.len() == remaining - 1 && q0.last() == u.name && exists|i: int|
                0 <= i < s.len() && (#[trigger] apply_upper_node(
                    s[i],
                    u,
                    u_parent,
                    (remaining - 1) as nat,
                    ws,
                )).1 && rr.0[i].name == s[i].name && has_path(rr.0[i], q0);
        let i = choose|i: int|
            0 <= i < s.len() && (#[trigger] apply_upper_node(
                s[i],
                u,
                u_parent,
                (remaining - 1) as nat,
                ws,
            )).1 && rr.0[i].name == s[i].name && has_path(rr.0[i], q0);
        let q = seq![s[i].name] + q0;
        assert(q.drop_first() =~= q0);
        assert(q[0] == s[i].name);
        assert(t2.children == rr.0);
        assert(0 <= i < t2.children.len() && t2.children[i].name == q[0] && has_path(
            t2.children[i],
            q.drop_first(),
        ));
        assert(has_path(t2, q));
        assert(q.last() == u.name && q.len() == remaining);
    }
}

/// The sequence form: when the search over `s[i..]` succeeds, the
/// subtree it acted on carries a path of the right depth ending in
/// the entry's name, and keeps its own name.
proof fn lemma_plain_entry_path_seq(
    s: Seq<NodeView>,
    i: int,
    u: NodeView,
    u_parent: Seq<char>,
    remaining: nat,
    ws: WhiteoutSpec,
)
    requires
        !u.is_whiteout(),
        0 <= i <= s.len(),
        apply_upper_seq(s, i, u, u_parent, remaining, ws).1,
    ensures
        apply_upper_seq(s, i, u, u_parent, remaining, ws).0.len() == s.len(),
        ({
            let rr = apply_upper_seq(s, i, u, u_parent, remaining, ws);
            exists|q0: Seq<Seq<char>>|
                q0.len() == remaining && q0.last() == u.name && exists|k: int|
                    i <= k < s.len() && (#[trigger] apply_upper_node(
                        s[k],
                        u,
                        u_parent,
                        remaining,
                        ws,
                    )).1 && rr.0[k].name == s[k].name && has_path(rr.0[k], q0)
        }),
    decreases s, s.len() - i,
{
    let rr = apply_upper_seq(s, i, u, u_parent, remaining, ws);
    let rn = apply_upper_node(s[i], u, u_parent, remaining, ws);
    if rn.1 {
        if remaining == 1 && s[i].name == u_parent {
            lemma_plain_entry_lands(s[i].children, u, ws);
            let r = merge_children(s[i].children, u, ws);
            lemma_find_child_props(r, u.name, 0);
            let c = find_child(r, u.name)->Some_0;
            let q0 = seq![u.name];
            assert(q0.drop_first() =~= Seq::<Seq<char>>::empty());
            assert(has_path(r[c], q0.drop_first()));
            assert(rr.0[i] == rn.0);
            assert(has_path(rn.0, q0));
        } else {
            lemma_plain_entry_path_lands(s[i], u, u_parent, remaining, ws);
            let q0 = choose|q0: Seq<Seq<char>>|
                q0.len() == remaining && q0.last() == u.name && #[trigger] has_path(rn.0, q0);
            assert(rr.0[i] == rn.0);
            assert(has_path(rr.0[i], q0));
        }
    } else {
        lemma_plain_entry_path_seq(s, i + 1, u, u_parent, remaining, ws);
        lemma_apply_upper_seq_untouched(s, i + 1, u, u_parent, remaining, ws);
    }
}

/// An anchor action keeps sibling names unique: what construction
/// establishes, every merge step preserves.
pub proof fn lemma_merge_children_preserves_unique(s: Seq<NodeView>, u: NodeView, ws: WhiteoutSpec)
    requires
        unique_names(s),
    ensures
        unique_names(merge_children(s, u, ws)),
{
    lemma_find_child_props(s, u.name, 0);
    if u.is_whiteout() {
        match u.whiteout_type(ws) {
            Some(WhiteoutType::OciRemoval) => {
                lemma_remove_named_unique(s, oci_removal_target(u.name));
            },
            Some(WhiteoutType::OverlayFsRemoval) => {
                lemma_remove_named_unique(s, u.name);
            },
            Some(WhiteoutType::OciOpaque) => {
            },
            Some(WhiteoutType::OverlayFsOpaque) => {
            },
            None => {
            },
        }
    } else {
        match find_child(s, u.name) {
            Some(i) => {
                if u.kind != EntryKind::Directory {
                    let base = s.remove(i);
                    assert forall|j: int| 0 <= j < base.len() implies base[j].name != u.name by {
                        if j < i {
                            assert(base[j] == s[j]);
                        } else {
                            assert(base[j] == s[j + 1]);
                        }
                    }
                    let r = base.push(new_entry(u));
                    assert forall|a: int, b: int| 0 <= a < b < r.len() implies r[a].name
                        != r[b].name by {
                        if b < base.len() {
                            lemma_remove_named_unique(s, u.name);
                            assert(remove_named(s, u.name) == base);
                        }
                    }
                }
            },
            None => {
                let r = s.push(new_entry(u));
                assert forall|a: int, b: int| 0 <= a < b < r.len() implies r[a].name
                    != r[b].name by {}
            },
        }
    }
}

/// Detaching a named child keeps the remaining names unique.
proof fn lemma_remove_named_unique(s: Seq<NodeView>, t: Seq<char>)
    requires
        unique_names(s),
    ensures
        unique_names(remove_named(s, t)),
{
    lemma_find_child_props(s, t, 0);
    match find_child(s, t) {
        Some(i) => {
            let r = s.remove(i);
            assert forall|a: int, b: int| 0 <= a < b < r.len() implies r[a].name != r[b].name by {
                let sa = if a < i {
                    a
                } else {
                    a + 1
                };
                let sb = if b < i {
                    b
                } else {
                    b + 1
                };
                assert(r[a] == s[sa]);
                assert(r[b] == s[sb]);
            }
        },
        None => {
        },
    }
}

/// The whole merge keeps sibling names unique everywhere in the base
/// tree.
pub proof fn lemma_apply_upper_node_preserves_wf(
    t: NodeView,
    u: NodeView,
    u_parent: Seq<char>,
    remaining: nat,
    ws: WhiteoutSpec,
)
    requires
        wf_names(t),
    ensures
        wf_names(apply_upper_node(t, u, u_parent, remaining, ws).0),
    decreases t, 0int,
{
    if remaining == 1 && t.name == u_parent {
        lemma_merge_children_preserves_unique(t.children, u, ws);
        let r = merge_children(t.children, u, ws);
        assert forall|i: int| 0 <= i < r.len() implies wf_names(#[trigger] r[i]) by {
            lemma_merge_children_element_wf(t.children, u, ws, i);
        }
    } else if remaining <= 1 {
    } else {
        lemma_apply_upper_seq_preserves_wf(t.children, 0, u, u_parent, (remaining - 1) as nat, ws);
    }
}

/// Every child an anchor action leaves behind is itself well-formed:
/// it is a former child, a former child emptied, or a fresh leaf.
proof fn lemma_merge_children_element_wf(s: Seq<NodeView>, u: NodeView, ws: WhiteoutSpec, i: int)
    requires
        forall|j: int| 0 <= j < s.len() ==> wf_names(#[trigger] s[j]),
        0 <= i < merge_children(s, u, ws).len(),
    ensures
        wf_names(merge_children(s, u, ws)[i]),
{
    lemma_find_child_props(s, u.name, 0);
    let r = merge_children(s, u, ws);
    if u.is_whiteout() {
        match u.whiteout_type(ws) {
            Some(WhiteoutType::OciRemoval) => {
                lemma_remove_named_element(s, oci_removal_target(u.name), i);
            },
            Some(WhiteoutType::OverlayFsRemoval) => {
                lemma_remove_named_element(s, u.name, i);
            },
            Some(WhiteoutType::OciOpaque) => {
            },
            Some(WhiteoutType::OverlayFsOpaque) => {
                match find_child(s, u.name) {
                    Some(k) => {
                        if i != k {
                            assert(r[i] == s[i]);
                        } else {
                            assert(r[i] == (NodeView { children: Seq::empty(), ..s[i] }));
                        }
                    },
                    None => {
                    },
                }
            },
            None => {
            },
        }
    } else {
        match find_child(s, u.name) {
            Some(k) => {
                if u.kind != EntryKind::Directory {
                    if i < r.len() - 1 {
                        lemma_remove_named_element(s, u.name, i);
                        assert(r[i] == s.remove(k)[i]);
                    } else {
                        assert(r[i] == new_entry(u));
                    }
                }
            },
            None => {
                if i < s.len() {
                    assert(r[i] == s[i]);
                } else {
                    assert(r[i] == new_entry(u));
                }
            },
        }
    }
}

/// An element left by a removal is one of the former children.
proof fn lemma_remove_named_element(s: Seq<NodeView>, t: Seq<char>, i: int)
    requires
        0 <= i < remove_named(s, t).len(),
    ensures
        exists|j: int| 0 <= j < s.len() && remove_named(s, t)[i] == s[j],
{
    lemma_find_child_props(s, t, 0);
    match find_child(s, t) {
        Some(k) => {
            if i < k {
                assert(remove_named(s, t)[i] == s[i]);
            } else {
                assert(remove_named(s, t)[i] == s[i + 1]);
            }
        },
        None => {
            assert(remove_named(s, t)[i] == s[i]);
        },
    }
}

/// The sequence form of well-formedness preservation.
proof fn lemma_apply_upper_seq_preserves_wf(
    s: Seq<NodeView>,
    i: int,
    u: NodeView,
    u_parent: Seq<char>,
    remaining: nat,
    ws: WhiteoutSpec,
)
    requires
        0 <= i <= s.len(),
        unique_names(s),
        forall|j: int| 0 <= j < s.len() ==> wf_names(#[trigger] s[j]),
    ensures
        ({
            let r = apply_upper_seq(s, i, u, u_parent, remaining, ws).0;
            &&& unique_names(r)
            &&& forall|j: int| 0 <= j < r.len() ==> wf_names(#[trigger] r[j])
        }),
    decreases s, s.len() - i,
{
    if 0 <= i < s.len() {
        let rn = apply_upper_node(s[i], u, u_parent, remaining, ws);
        if rn.1 {
            lemma_apply_upper_node_preserves_wf(s[i], u, u_parent, remaining, ws);
            let r = s.update(i, rn.0);
            assert(rn.0.name == s[i].name);
            assert forall|a: int, b: int| 0 <= a < b < r.len() implies r[a].name != r[b].name by {
                assert(r[a].name == s[a].name && r[b].name == s[b].name);
            }
        } else {
            lemma_apply_upper_seq_preserves_wf(s, i + 1, u, u_parent, remaining, ws);
        }
    }
}

/// Whether some child of the list is exactly this entry.
pub open spec fn holds_entry(s: Seq<NodeView>, e: NodeView) -> bool {
    exists|k: int| 0 <= k < s.len() && s[k] == e
}

/// Whether some child of the list carries this name.
pub open spec fn holds_name(s: Seq<NodeView>, n: Seq<char>) -> bool {
    exists|k: int| 0 <= k < s.len() && s[k].name == n
}

/// Whether none of the entries `cs[i..]` carries this name.
pub open spec fn none_named(cs: Seq<NodeView>, i: int, n: Seq<char>) -> bool {
    forall|k: int| i <= k < cs.len() ==> (#[trigger] cs[k]).name != n
}

/// The fold of flat marker-free entries `cs[i..]` onto the root's
/// child list: every entry's name lands, every non-directory entry
/// lands as the upper version, and every child whose name no entry
/// carries survives untouched.
proof fn lemma_flat_seq(acc: NodeView, cs: Seq<NodeView>, i: int, ws: WhiteoutSpec)
    requires
        0 <= i <= cs.len(),
        unique_names(cs),
        forall|k: int| 0 <= k < cs.len() ==> !(#[trigger] cs[k]).is_whiteout(),
        forall|k: int| 0 <= k < cs.len() ==> (#[trigger] cs[k]).children.len() == 0,
    ensures
        ({
            let fin = merge_seq(acc, cs, i, acc.name, 1, ws);
            &&& fin.name == acc.name
            &&& (forall|k: int|
                i <= k < cs.len() ==> holds_name(fin.children, (#[trigger] cs[k]).name))
            &&& (forall|k: int|
                i <= k < cs.len() && cs[k].kind != EntryKind::Directory ==> holds_entry(
                    fin.children,
                    new_entry(#[trigger] cs[k]),
                ))
            &&& (forall|e: NodeView|
                holds_entry(acc.children, e) && none_named(cs, i, e.name) ==> holds_entry(
                    fin.children,
                    e,
                ))
        }),
    decreases cs.len() - i,
{
    if i < cs.len() {
        let u = cs[i];
        let acc1 = merge_subtree(acc, u, acc.name, 1, ws);
        let r = merge_children(acc.children, u, ws);
        assert(acc1 == (NodeView { children: r, ..acc }));
        lemma_plain_entry_lands(acc.children, u, ws);
        lemma_flat_seq(acc1, cs, i + 1, ws);
        let fin = merge_seq(acc, cs, i, acc.name, 1, ws);
        assert(fin == merge_seq(acc1, cs, i + 1, acc1.name, 1, ws));

        // The entry processed here reaches the end of the fold: no
        // later entry carries its name.
        assert(none_named(cs, i + 1, u.name));
        lemma_find_child_props(r, u.name, 0);
        let kr = find_child(r, u.name)->Some_0;
        assert(holds_entry(acc1.children, r[kr]));
        assert(holds_name(fin.children, u.name));
        if u.kind != EntryKind::Directory {
            assert(holds_entry(acc1.children, new_entry(u)));
            assert(holds_entry(fin.children, new_entry(u)));
        }

        // A child whose name no remaining entry carries first survives
        // this step, then the rest of the fold.
        assert forall|e: NodeView|
            holds_entry(acc.children, e) && none_named(cs, i, e.name) implies holds_entry(
            fin.children,
            e,
        ) by {
            let j = choose|j: int| 0 <= j < acc.children.len() && acc.children[j] == e;
            assert(acc.children[j].name != u.name);
            assert(holds_entry(r, e));
        }
    }
}

/// One whole flat marker-free layer lands: merging an upper snapshot
/// of plain leaf entries adds every upper-only path at depth one,
/// resolves every shared non-directory name upper-side, and keeps
/// every base child whose name the layer does not touch.
pub proof fn lemma_flat_marker_free_layer(base: NodeView, upper: NodeView, ws: WhiteoutSpec)
    requires
        base.name == upper.name,
        unique_names(upper.children),
        forall|k: int|
            0 <= k < upper.children.len() ==> !(#[trigger] upper.children[k]).is_whiteout(),
        forall|k: int|
            0 <= k < upper.children.len() ==> (#[trigger] upper.children[k]).children.len() == 0,
    ensures
        ({
            let fin = spec_apply_layer(base, upper, ws);
            &&& fin.name == base.name
            &&& (forall|k: int|
                0 <= k < upper.children.len() ==> holds_name(
                    fin.children,
                    (#[trigger] upper.children[k]).name,
                ))
            &&& (forall|k: int|
                0 <= k < upper.children.len() && upper.children[k].kind != EntryKind::Directory
                    ==> holds_entry(fin.children, new_entry(#[trigger] upper.children[k])))
            &&& (forall|e: NodeView|
                holds_entry(base.children, e) && none_named(upper.children, 0, e.name)
                    ==> holds_entry(fin.children, e))
        }),
{
    lemma_flat_seq(base, upper.children, 0, ws);
    assert(spec_apply_layer(base, upper, ws) == merge_seq(
        base,
        upper.children,
        0,
        base.name,
        1,
        ws,
    ));
}

/// What a marker leaves behind once it has acted: a removal's target
/// name is gone, an OCI opaque anchor is empty, an overlayfs opaque
/// target keeps no children.
pub open spec fn settled(c: Seq<NodeView>, u: NodeView, ws: WhiteoutSpec) -> bool {
    match u.whiteout_type(ws) {
        Some(WhiteoutType::OciRemoval) => !holds_name(c, oci_removal_target(u.name)),
        Some(WhiteoutType::OverlayFsRemoval) => !holds_name(c, u.name),
        Some(WhiteoutType::OciOpaque) => c.len() == 0,
        Some(WhiteoutType::OverlayFsOpaque) => forall|k: int|
            0 <= k < c.len() && (#[trigger] c[k]).name == u.name ==> c[k].children.len() == 0,
        None => true,
    }
}

/// A whiteout action settles its own marker.
proof fn lemma_action_settles(c: Seq<NodeView>, u: NodeView, ws: WhiteoutSpec)
    requires
        u.is_whiteout(),
        unique_names(c),
    ensures
        settled(merge_children(c, u, ws), u, ws),
{
    let r = merge_children(c, u, ws);
    match u.whiteout_type(ws) {
        Some(WhiteoutType::OciRemoval) => {
            lemma_removal_leaves_no_target(c, oci_removal_target(u.name));
        },
        Some(WhiteoutType::OverlayFsRemoval) => {
            lemma_removal_leaves_no_target(c, u.name);
        },
        Some(WhiteoutType::OciOpaque) => {
        },
        Some(WhiteoutType::OverlayFsOpaque) => {
            lemma_find_child_props(c, u.name, 0);
            match find_child(c, u.name) {
                Some(i) => {
                    assert forall|k: int|
                        0 <= k < r.len() && (#[trigger] r[k]).name == u.name implies r[k].children.len()
                        == 0 by {
                        if k != i {
                            assert(r[k] == c[k]);
                            assert(c[i].name == u.name);
                        }
                    }
                },
                None => {
                },
            }
        },
        None => {
        },
    }
}

/// After removing a name from a duplicate-free child list, no child
/// carries it.
proof fn lemma_removal_leaves_no_target(c: Seq<NodeView>, t: Seq<char>)
    requires
        unique_names(c),
    ensures
        !holds_name(remove_named(c, t), t),
{
    lemma_find_child_props(c, t, 0);
    match find_child(c, t) {
        Some(i) => {
            let r = c.remove(i);
            assert forall|j: int| 0 <= j < r.len() implies (#[trigger] r[j]).name != t by {
                if j < i {
                    assert(r[j] == c[j]);
                } else {
                    assert(r[j] == c[j + 1]);
                }
            }
        },
        None => {
        },
    }
}

/// A whiteout action, which only ever takes away, keeps every other
/// marker settled.
proof fn lemma_action_preserves_settled(
    c: Seq<NodeView>,
    u: NodeView,
    u2: NodeView,
    ws: WhiteoutSpec,
)
    requires
        u.is_whiteout(),
        settled(c, u2, ws),
    ensures
        settled(merge_children(c, u, ws), u2, ws),
{
    let r = merge_children(c, u, ws);
    lemma_whiteout_adds_nothing(c, u, ws);
    match u2.whiteout_type(ws) {
        Some(WhiteoutType::OciRemoval) => {
            lemma_no_name_preserved(c, r, oci_removal_target(u2.name));
        },
        Some(WhiteoutType::OverlayFsRemoval) => {
            lemma_no_name_preserved(c, r, u2.name);
        },
        Some(WhiteoutType::OciOpaque) => {
        },
        Some(WhiteoutType::OverlayFsOpaque) => {
            assert forall|k: int|
                0 <= k < r.len() && (#[trigger] r[k]).name == u2.name implies r[k].children.len()
                == 0 by {
                let j = choose|j: int|
                    0 <= j < c.len() && (r[k] == c[j] || r[k] == (NodeView {
                        children: Seq::empty(),
                        ..c[j]
                    }));
                if r[k] == c[j] {
                    assert(c[j].name == u2.name);
                }
            }
        },
        None => {
        },
    }
}

/// Where no child of the old list carried a name, none of what a
/// whiteout action leaves behind carries it either.
proof fn lemma_no_name_preserved(c: Seq<NodeView>, r: Seq<NodeView>, t: Seq<char>)
    requires
        !holds_name(c, t),
        forall|k: int| #![trigger r[k]]
            0 <= k < r.len() ==> exists|j: int|
                0 <= j < c.len() && (r[k] == c[j] || r[k] == (NodeView {
                    children: Seq::empty(),
                    ..c[j]
                })),
    ensures
        !holds_name(r, t),
{
    assert forall|k: int| 0 <= k < r.len() implies (#[trigger] r[k]).name != t by {
        let j = choose|j: int|
            0 <= j < c.len() && (r[k] == c[j] || r[k] == (NodeView {
                children: Seq::empty(),
                ..c[j]
            }));
        assert(r[k].name == c[j].name);
    }
}

/// A settled marker's action is a no-op.
proof fn lemma_settled_action_noop(c: Seq<NodeView>, u: NodeView, ws: WhiteoutSpec)
    requires
        u.is_whiteout(),
        settled(c, u, ws),
    ensures
        merge_children(c, u, ws) == c,
{
    match u.whiteout_type(ws) {
        Some(WhiteoutType::OciRemoval) => {
            lemma_absent_removal_noop(c, oci_removal_target(u.name));
        },
        Some(WhiteoutType::OverlayFsRemoval) => {
            lemma_absent_removal_noop(c, u.name);
        },
        Some(WhiteoutType::OciOpaque) => {
            assert(merge_children(c, u, ws) =~= c);
        },
        Some(WhiteoutType::OverlayFsOpaque) => {
            lemma_find_child_props(c, u.name, 0);
            match find_child(c, u.name) {
                Some(i) => {
                    assert(c[i].children =~= Seq::<NodeView>::empty());
                    assert(c.update(i, NodeView { children: Seq::empty(), ..c[i] }) =~= c);
                },
                None => {
                },
            }
        },
        None => {
        },
    }
}

/// Removing a name that no child carries changes nothing.
proof fn lemma_absent_removal_noop(c: Seq<NodeView>, t: Seq<char>)
    requires
        !holds_name(c, t),
    ensures
        remove_named(c, t) == c,
{
    lemma_find_child_props(c, t, 0);
    match find_child(c, t) {
        Some(i) => {
            assert(false);
        },
        None => {
        },
    }
}

/// The first pass of a flat whiteout-only layer settles every one of
/// its markers, keeps names unique, and preserves whatever earlier
/// markers had settled.
proof fn lemma_whiteout_fold_settles(
    b: NodeView,
    cs: Seq<NodeView>,
    i: int,
    parent: Seq<char>,
    ws: WhiteoutSpec,
)
    requires
        0 <= i <= cs.len(),
        b.name == parent,
        unique_names(b.children),
        forall|k: int| 0 <= k < cs.len() ==> (#[trigger] cs[k]).is_whiteout(),
        forall|k: int| 0 <= k < cs.len() ==> (#[trigger] cs[k]).children.len() == 0,
    ensures
        ({
            let f = merge_seq(b, cs, i, parent, 1, ws);
            &&& f.name == b.name
            &&& unique_names(f.children)
            &&& (forall|u2: NodeView|
                #![trigger settled(f.children, u2, ws)]
                u2.is_whiteout() && settled(b.children, u2, ws) ==> settled(f.children, u2, ws))
            &&& (forall|k: int| i <= k < cs.len() ==> settled(f.children, #[trigger] cs[k], ws))
        }),
    decreases cs.len() - i,
{
    if i < cs.len() {
        let u = cs[i];
        let b1 = merge_subtree(b, u, parent, 1, ws);
        assert(b1 == (NodeView { children: merge_children(b.children, u, ws), ..b }));
        lemma_action_settles(b.children, u, ws);
        lemma_merge_children_preserves_unique(b.children, u, ws);
        assert forall|u2: NodeView|
            u2.is_whiteout() && settled(b.children, u2, ws) implies settled(
            b1.children,
            u2,
            ws,
        ) by {
            lemma_action_preserves_settled(b.children, u, u2, ws);
        }
        lemma_whiteout_fold_settles(b1, cs, i + 1, parent, ws);
    }
}

/// The second pass of a flat whiteout-only layer, with every marker
/// already settled, changes nothing.
proof fn lemma_whiteout_fold_noop(
    b: NodeView,
    cs: Seq<NodeView>,
    i: int,
    parent: Seq<char>,
    ws: WhiteoutSpec,
)
    requires
        0 <= i <= cs.len(),
        b.name == parent,
        forall|k: int| 0 <= k < cs.len() ==> (#[trigger] cs[k]).is_whiteout(),
        forall|k: int| 0 <= k < cs.len() ==> (#[trigger] cs[k]).children.len() == 0,
        forall|k: int| i <= k < cs.len() ==> settled(b.children, #[trigger] cs[k], ws),
    ensures
        merge_seq(b, cs, i, parent, 1, ws) == b,
    decreases cs.len() - i,
{
    if i < cs.len() {
        let u = cs[i];
        lemma_settled_action_noop(b.children, u, ws);
        let b1 = merge_subtree(b, u, parent, 1, ws);
        assert(b1 == (NodeView { children: merge_children(b.children, u, ws), ..b }));
        assert(b1 == b);
        lemma_whiteout_fold_noop(b, cs, i + 1, parent, ws);
    }
}

/// Applying an already-fully-applied whiteout-only layer a second
/// time is a no-op: a layer of markers standing directly under its
/// root, once merged, merges again without any effect.
pub proof fn lemma_whiteout_only_layer_idempotent(
    base: NodeView,
    upper: NodeView,
    ws: WhiteoutSpec,
)
    requires
        base.name == upper.name,
        unique_names(base.children),
        forall|k: int| 0 <= k < upper.children.len() ==> (#[trigger] upper.children[k]).is_whiteout(),
        forall|k: int|
            0 <= k < upper.children.len() ==> (#[trigger] upper.children[k]).children.len() == 0,
    ensures
        spec_apply_layer(spec_apply_layer(base, upper, ws), upper, ws) == spec_apply_layer(
            base,
            upper,
            ws,
        ),
{
    let f = spec_apply_layer(base, upper, ws);
    assert(f == merge_seq(base, upper.children, 0, upper.name, 1, ws));
    lemma_whiteout_fold_settles(base, upper.children, 0, upper.name, ws);
    assert(spec_apply_layer(f, upper, ws) == merge_seq(f, upper.children, 0, upper.name, 1, ws));
    lemma_whiteout_fold_noop(f, upper.children, 0, upper.name, ws);
}

/// Folding a stack of layers and then one more layer equals applying
/// that one layer to the folded stack: the fold is exactly repeated
/// single-layer application, in order.
pub proof fn lemma_fold_is_iterated_application(
    base: NodeView,
    layers: Seq<NodeView>,
    l: NodeView,
    ws: WhiteoutSpec,
    i: int,
)
    requires
        0 <= i <= layers.len(),
    ensures
        spec_apply_layers(base, layers.push(l), i, ws) == spec_apply_layer(
            spec_apply_layers(base, layers, i, ws),
            l,
            ws,
        ),
    decreases layers.len() - i,
{
    if i < layers.len() {
        assert(layers.push(l)[i] == layers[i]);
        lemma_fold_is_iterated_application(
            spec_apply_layer(base, layers[i], ws),
            layers,
            l,
            ws,
            i + 1,
        );
    } else {
        assert(layers.push(l)[i] == l);
        let x = spec_apply_layer(base, l, ws);
        assert(spec_apply_layers(base, layers, i, ws) == base);
        assert(spec_apply_layers(x, layers.push(l), i + 1, ws) == x);
        assert(spec_apply_layers(base, layers.push(l), i, ws) == spec_apply_layers(
            x,
            layers.push(l),
            i + 1,
            ws,
        ));
    }
}

} // verus!
