//! The scene graph: an arena of transformable nodes, each optionally bound to
//! GPU-resident geometry, addressed by stable integer handles.
//!
//! The arena owns every node; a node keeps the handles of its children.  A
//! node is attached to at most one parent, and always to one created before
//! it, so the child lists form a forest in which every child handle is
//! strictly greater than its parent's.  That discipline rules out cycles and
//! double attachment, and it is what the traversal proofs lean on.

use vstd::prelude::*;
use nalgebra_glm::{Mat4, Vec3};
use crate::glmath::{identity4, one3, zero3};

verus! {

/// The ghost image of one node: its per-frame transform parameters, its
/// cached world matrix, its geometry binding and its child handles.
pub ghost struct NodeView {
    pub position: Vec3,
    pub rotation: Vec3,
    pub scale: Vec3,
    pub reference_point: Vec3,
    pub current_transformation_matrix: Mat4,
    pub vao_id: u32,
    pub index_count: i32,
    pub children: Seq<int>,
}

/// One node of the scene graph.  `vao_id == 0` means no geometry is bound:
/// the node is a pure transform/group node, skipped by the draw pass but
/// still contributing its transform to its subtree.
struct SceneNode {
    position: Vec3,
    rotation: Vec3,
    scale: Vec3,
    reference_point: Vec3,
    current_transformation_matrix: Mat4,
    vao_id: u32,
    index_count: i32,
    children: Vec<usize>,
}

impl View for SceneNode {
    type V = NodeView;

    closed spec fn view(&self) -> NodeView {
        NodeView {
            position: self.position,
            rotation: self.rotation,
            scale: self.scale,
            reference_point: self.reference_point,
            current_transformation_matrix: self.current_transformation_matrix,
            vao_id: self.vao_id,
            index_count: self.index_count,
            children: self.children@.map_values(|c: usize| c as int),
        }
    }
}

/// `c` sits in `p`'s child list.
pub open spec fn is_child(s: Seq<NodeView>, p: int, c: int) -> bool {
    &&& 0 <= p < s.len()
    &&& exists|k: int| 0 <= k < s[p].children.len() && #[trigger] s[p].children[k] == c
}

/// `c` sits in some node's child list.
pub open spec fn attached(s: Seq<NodeView>, c: int) -> bool {
    exists|p: int| #[trigger] is_child(s, p, c)
}

/// Every child handle of node `i` is a valid handle greater than `i`.
pub open spec fn wf_at(s: Seq<NodeView>, i: int) -> bool {
    forall|k: int| 0 <= k < s[i].children.len() ==> i < #[trigger] s[i].children[k] < s.len()
}

/// No handle occurs twice over all child lists: a node has at most one
/// parent, and sits in that parent's list once.
pub open spec fn unique_attachment(s: Seq<NodeView>) -> bool {
    forall|p1: int, k1: int, p2: int, k2: int|
        0 <= p1 < s.len() && 0 <= k1 < s[p1].children.len() && 0 <= p2 < s.len() && 0 <= k2
            < s[p2].children.len() && #[trigger] s[p1].children[k1] == #[trigger] s[p2].children[k2]
            ==> p1 == p2 && k1 == k2
}

/// The scene graph is well formed: child handles are in range and greater
/// than their parent's handle, and every node is attached at most once.
pub open spec fn graph_wf(s: Seq<NodeView>) -> bool {
    &&& forall|i: int| 0 <= i < s.len() ==> #[trigger] wf_at(s, i)
    &&& unique_attachment(s)
}

/// Well-formedness looks at the child lists alone, so two graphs whose
/// nodes carry the same child lists are equally well formed, whatever their
/// transform parameters or cached matrices.
pub proof fn lemma_wf_same_children(s1: Seq<NodeView>, s2: Seq<NodeView>)
    requires
        s1.len() == s2.len(),
        forall|i: int| 0 <= i < s1.len() ==> s1[i].children == s2[i].children,
    ensures
        graph_wf(s1) == graph_wf(s2),
{
    lemma_wf_from_same_children(s1, s2);
    lemma_wf_from_same_children(s2, s1);
}

proof fn lemma_wf_from_same_children(s1: Seq<NodeView>, s2: Seq<NodeView>)
    requires
        s1.len() == s2.len(),
        forall|i: int| 0 <= i < s1.len() ==> s1[i].children == s2[i].children,
    ensures
        graph_wf(s1) ==> graph_wf(s2),
{
    if graph_wf(s1) {
        assert forall|i: int| 0 <= i < s2.len() implies #[trigger] wf_at(s2, i) by {
            assert(wf_at(s1, i));
        }
        assert forall|p1: int, k1: int, p2: int, k2: int|
            0 <= p1 < s2.len() && 0 <= k1 < s2[p1].children.len() && 0 <= p2 < s2.len() && 0 <= k2
                < s2[p2].children.len() && #[trigger] s2[p1].children[k1]
                == #[trigger] s2[p2].children[k2] implies p1 == p2 && k1 == k2 by {
            assert(s1[p1].children[k1] == s1[p2].children[k2]);
        }
    }
}

/// The arena that owns the whole scene graph.
pub struct Scene {
    nodes: Vec<SceneNode>,
}

impl View for Scene {
    type V = Seq<NodeView>;

    closed spec fn view(&self) -> Seq<NodeView> {
        self.nodes@.map_values(|nd: SceneNode| nd@)
    }
}

impl Scene {
    /// Validity of the arena; established by `new` and preserved by every
    /// method.
    pub open spec fn wf(&self) -> bool {
        graph_wf(self@)
    }

    /// An empty arena: no nodes yet.
    pub fn new() -> (s: Scene)
        ensures
            s.wf(),
            s@ == Seq::<NodeView>::empty(),
    {
        let s = Scene { nodes: Vec::new() };
        proof {
            assert(s@ =~= Seq::<NodeView>::empty());
        }
        s
    }

    /// How many nodes the arena holds; handles are `0 .. len()`.
    pub fn len(&self) -> (n: usize)
        ensures
            n == self@.len(),
    {
        self.nodes.len()
    }

    /// A new unattached node with no geometry and an empty child list; its
    /// transform parameters start at the identity (zero position, rotation
    /// and pivot, unit scale).  Returns the node's handle.
    pub fn create(&mut self) -> (h: usize)
        ensures
            h == old(self)@.len(),
            final(self)@.len() == old(self)@.len() + 1,
            forall|i: int| 0 <= i < old(self)@.len() ==> final(self)@[i] == old(self)@[i],
            final(self)@[h as int].children == Seq::<int>::empty(),
            final(self)@[h as int].vao_id == 0,
            final(self)@[h as int].index_count == -1,
            old(self).wf() ==> final(self).wf(),
    {
        self.push_node(0, -1)
    }

    /// A new unattached node with geometry bound at construction: `vao_id`
    /// names the GPU buffer handle the geometry-upload collaborator returned
    /// and `index_count` its element count.  The binding is immutable after
    /// creation.  Returns the node's handle.
    pub fn create_with_geometry(&mut self, vao_id: u32, index_count: i32) -> (h: usize)
        ensures
            h == old(self)@.len(),
            final(self)@.len() == old(self)@.len() + 1,
            forall|i: int| 0 <= i < old(self)@.len() ==> final(self)@[i] == old(self)@[i],
            final(self)@[h as int].children == Seq::<int>::empty(),
            final(self)@[h as int].vao_id == vao_id,
            final(self)@[h as int].index_count == index_count,
            old(self).wf() ==> final(self).wf(),
    {
        self.push_node(vao_id, index_count)
    }

    fn push_node(&mut self, vao_id: u32, index_count: i32) -> (h: usize)
        ensures
            h == old(self)@.len(),
            final(self)@.len() == old(self)@.len() + 1,
            forall|i: int| 0 <= i < old(self)@.len() ==> final(self)@[i] == old(self)@[i],
            final(self)@[h as int].children == Seq::<int>::empty(),
            final(self)@[h as int].vao_id == vao_id,
            final(self)@[h as int].index_count == index_count,
            old(self).wf() ==> final(self).wf(),
    {
        let h = self.nodes.len();
        let node = SceneNode {
            position: zero3(),
            rotation: zero3(),
            scale: one3(),
            reference_point: zero3(),
            current_transformation_matrix: identity4(),
            vao_id,
            index_count,
            children: Vec::new(),
        };
        proof {
            assert(node@.children =~= Seq::<int>::empty());
        }
        self.nodes.push(node);
        proof {
            let post = self@;
            let pre = old(self)@;
            assert(post =~= pre.push(node@));
            if old(self).wf() {
                assert forall|i: int| 0 <= i < post.len() implies #[trigger] wf_at(post, i) by {
                    if i < pre.len() {
                        assert(wf_at(pre, i));
                        assert(post[i] == pre[i]);
                    }
                }
                assert forall|p1: int, k1: int, p2: int, k2: int|
                    0 <= p1 < post.len() && 0 <= k1 < post[p1].children.len() && 0 <= p2
                        < post.len() && 0 <= k2 < post[p2].children.len() && #[trigger] post[p1].children[k1]
                        == #[trigger] post[p2].children[k2] implies p1 == p2 && k1 == k2 by {
                    assert(post[p1] == pre[p1] || p1 == pre.len());
                    assert(post[p2] == pre[p2] || p2 == pre.len());
                }
            }
        }
        h
    }

    /// Attach `child` to `parent`, appending it to `parent`'s child list.
    ///
    /// The scene is assembled statically, node by node, so a child is always
    /// attached to a node created before it (`parent < child`) and must not
    /// already be attached anywhere: together these keep the graph a forest
    /// and rule out cycles and duplicate draws.
    pub fn add_child(&mut self, parent: usize, child: usize)
        requires
            old(self).wf(),
            parent < child,
            (child as int) < old(self)@.len(),
            !attached(old(self)@, child as int),
        ensures
            final(self).wf(),
            final(self)@ == old(self)@.update(
                parent as int,
                (NodeView {
                    children: old(self)@[parent as int].children.push(child as int),
                    ..old(self)@[parent as int]
                }),
        ),
    {
        self.nodes[parent].children.push(child);
        proof {
            let pre = old(self)@;
            let post = self@;
            let pv = (NodeView { children: pre[parent as int].children.push(child as int), ..pre[
                parent as int
            ] });
            assert(post[parent as int].children =~= pv.children);
            assert(post =~= pre.update(parent as int, pv));
            assert forall|i: int| 0 <= i < post.len() implies #[trigger] wf_at(post, i) by {
                assert(wf_at(pre, i));
                if i == parent as int {
                    assert forall|k: int| 0 <= k < post[i].children.len() implies i
                        < #[trigger] post[i].children[k] < post.len() by {
                        if k < pre[i].children.len() {
                            assert(post[i].children[k] == pre[i].children[k]);
                        }
                    }
                }
            }
            assert forall|p1: int, k1: int, p2: int, k2: int|
                0 <= p1 < post.len() && 0 <= k1 < post[p1].children.len() && 0 <= p2 < post.len()
                    && 0 <= k2 < post[p2].children.len() && #[trigger] post[p1].children[k1]
                    == #[trigger] post[p2].children[k2] implies p1 == p2 && k1 == k2 by {
                let c1 = post[p1].children[k1];
                let new1 = p1 == parent as int && k1 == pre[parent as int].children.len();
                let new2 = p2 == parent as int && k2 == pre[parent as int].children.len();
                if new1 && new2 {
                } else if new1 {
                    assert(post[p2].children[k2] == pre[p2].children[k2]);
                    assert(is_child(pre, p2, child as int));
                    assert(false);
                } else if new2 {
                    assert(post[p1].children[k1] == pre[p1].children[k1]);
                    assert(is_child(pre, p1, child as int));
                    assert(false);
                } else {
                    assert(pre[p1].children[k1] == pre[p2].children[k2]);
                }
            }
        }
    }

    /// The node's position offset.
    pub fn position(&self, n: usize) -> (v: &Vec3)
        requires
            (n as int) < self@.len(),
        ensures
            *v == self@[n as int].position,
    {
        &self.nodes[n].position
    }

    /// The node's per-axis Euler rotation angles.
    pub fn rotation(&self, n: usize) -> (v: &Vec3)
        requires
            (n as int) < self@.len(),
        ensures
            *v == self@[n as int].rotation,
    {
        &self.nodes[n].rotation
    }

    /// The node's per-axis scale factors.
    pub fn scale(&self, n: usize) -> (v: &Vec3)
        requires
            (n as int) < self@.len(),
        ensures
            *v == self@[n as int].scale,
    {
        &self.nodes[n].scale
    }

    /// The node's pivot: the point about which its rotation and scale are
    /// applied.
    pub fn reference_point(&self, n: usize) -> (v: &Vec3)
        requires
            (n as int) < self@.len(),
        ensures
            *v == self@[n as int].reference_point,
    {
        &self.nodes[n].reference_point
    }

    /// The node's cached world matrix, as the last transform propagation
    /// left it.
    pub fn current_transformation_matrix(&self, n: usize) -> (m: &Mat4)
        requires
            (n as int) < self@.len(),
        ensures
            *m == self@[n as int].current_transformation_matrix,
    {
        &self.nodes[n].current_transformation_matrix
    }

    /// The node's geometry handle; `0` means no geometry is bound.
    pub fn vao_id(&self, n: usize) -> (v: u32)
        requires
            (n as int) < self@.len(),
        ensures
            v == self@[n as int].vao_id,
    {
        self.nodes[n].vao_id
    }

    /// The element count of the node's index buffer.
    pub fn index_count(&self, n: usize) -> (v: i32)
        requires
            (n as int) < self@.len(),
        ensures
            v == self@[n as int].index_count,
    {
        self.nodes[n].index_count
    }

    /// How many children the node has.
    pub fn child_count(&self, n: usize) -> (c: usize)
        requires
            (n as int) < self@.len(),
        ensures
            c == self@[n as int].children.len(),
    {
        self.nodes[n].children.len()
    }

    /// The handle of the node's `k`-th child.
    pub fn child(&self, n: usize, k: usize) -> (c: usize)
        requires
            (n as int) < self@.len(),
            (k as int) < self@[n as int].children.len(),
        ensures
            c == self@[n as int].children[k as int],
    {
        self.nodes[n].children[k]
    }

    /// Set the node's position offset.
    pub fn set_position(&mut self, n: usize, v: Vec3)
        requires
            (n as int) < old(self)@.len(),
        ensures
            final(self)@ == old(self)@.update(
                n as int,
                (NodeView { position: v, ..old(self)@[n as int] }),
            ),
            old(self).wf() ==> final(self).wf(),
    {
        self.nodes[n].position = v;
        proof {
            self.lemma_field_update(old(self)@, n as int);
        }
    }

    /// Set the node's per-axis Euler rotation angles.
    pub fn set_rotation(&mut self, n: usize, v: Vec3)
        requires
            (n as int) < old(self)@.len(),
        ensures
            final(self)@ == old(self)@.update(
                n as int,
                (NodeView { rotation: v, ..old(self)@[n as int] }),
            ),
            old(self).wf() ==> final(self).wf(),
    {
        self.nodes[n].rotation = v;
        proof {
            self.lemma_field_update(old(self)@, n as int);
        }
    }

    /// Set the node's per-axis scale factors.
    pub fn set_scale(&mut self, n: usize, v: Vec3)
        requires
            (n as int) < old(self)@.len(),
        ensures
            final(self)@ == old(self)@.update(
                n as int,
                (NodeView { scale: v, ..old(self)@[n as int] }),
            ),
            old(self).wf() ==> final(self).wf(),
    {
        self.nodes[n].scale = v;
        proof {
            self.lemma_field_update(old(self)@, n as int);
        }
    }

    /// Set the node's pivot.
    pub fn set_reference_point(&mut self, n: usize, v: Vec3)
        requires
            (n as int) < old(self)@.len(),
        ensures
            final(self)@ == old(self)@.update(
                n as int,
                (NodeView { reference_point: v, ..old(self)@[n as int] }),
            ),
            old(self).wf() ==> final(self).wf(),
    {
        self.nodes[n].reference_point = v;
        proof {
            self.lemma_field_update(old(self)@, n as int);
        }
    }

    /// Store the node's freshly recomputed world matrix.  Only the transform
    /// propagation pass writes this cache; nothing else hand-sets it.
    pub(crate) fn set_current_transformation_matrix(&mut self, n: usize, m: Mat4)
        requires
            (n as int) < old(self)@.len(),
        ensures
            final(self)@ == old(self)@.update(
                n as int,
                (NodeView { current_transformation_matrix: m, ..old(self)@[n as int] }),
            ),
            old(self).wf() ==> final(self).wf(),
    {
        self.nodes[n].current_transformation_matrix = m;
        proof {
            self.lemma_field_update(old(self)@, n as int);
        }
    }

    /// After a single-node update that left every child list alone, the view
    /// is the pointwise update and well-formedness carries over.
    proof fn lemma_field_update(&self, pre: Seq<NodeView>, n: int)
        requires
            0 <= n < pre.len(),
            self@.len() == pre.len(),
            forall|i: int| 0 <= i < pre.len() && i != n ==> self@[i] == pre[i],
            self@[n].children == pre[n].children,
        ensures
            forall|nv: NodeView|
                nv == self@[n] ==> self@ == pre.update(n, nv),
            graph_wf(pre) ==> graph_wf(self@),
    {
        assert forall|nv: NodeView| nv == self@[n] implies self@ == pre.update(n, nv) by {
            assert(self@ =~= pre.update(n, nv));
        }
        lemma_wf_from_same_children(pre, self@);
    }
}

/// The handles of the subtree rooted at `n`, in depth-first order: `n`
/// first, then each child's subtree in child-list order.
pub open spec fn subtree(s: Seq<NodeView>, n: int) -> Seq<int>
    decreases s.len() - n, 1int, 0int,
        when graph_wf(s) && 0 <= n < s.len()
{
    seq![n] + subtree_children(s, n, 0)
}

/// The handles of the subtrees of `n`'s children from position `k` on, in
/// depth-first order.
pub open spec fn subtree_children(s: Seq<NodeView>, n: int, k: int) -> Seq<int>
    decreases s.len() - n, 0int, s[n].children.len() - k,
        when graph_wf(s) && 0 <= n < s.len() && 0 <= k
{
    if k < s[n].children.len() {
        proof {
            assert(wf_at(s, n));
        }
        subtree(s, s[n].children[k]) + subtree_children(s, n, k + 1)
    } else {
        Seq::empty()
    }
}

/// The parent of an attached node: the one node whose child list holds it.
pub open spec fn parent_of(s: Seq<NodeView>, c: int) -> int {
    choose|p: int| is_child(s, p, c)
}

/// A node has at most one parent, and a parent's handle is smaller than its
/// child's.
pub proof fn lemma_parent_unique(s: Seq<NodeView>, p1: int, p2: int, c: int)
    requires
        graph_wf(s),
        is_child(s, p1, c),
        is_child(s, p2, c),
    ensures
        p1 == p2,
        p1 < c,
{
    let k1 = choose|k: int| 0 <= k < s[p1].children.len() && #[trigger] s[p1].children[k] == c;
    let k2 = choose|k: int| 0 <= k < s[p2].children.len() && #[trigger] s[p2].children[k] == c;
    assert(s[p1].children[k1] == s[p2].children[k2]);
    assert(wf_at(s, p1));
}

/// What the subtree of `n` holds: `n` itself, and the members of its
/// children's subtrees; every member is a handle in `n .. s.len()`.
pub proof fn lemma_subtree_mem(s: Seq<NodeView>, n: int)
    requires
        graph_wf(s),
        0 <= n < s.len(),
    ensures
        subtree(s, n).contains(n),
        forall|x: int| #[trigger] subtree(s, n).contains(x) <==> (x == n || exists|j: int|
            0 <= j < s[n].children.len() && #[trigger] subtree(s, s[n].children[j]).contains(x)),
        forall|x: int| #[trigger] subtree(s, n).contains(x) ==> n <= x < s.len(),
    decreases s.len() - n, 1int, 0int,
{
    let head = seq![n];
    let tail = subtree_children(s, n, 0);
    lemma_children_mem(s, n, 0);
    assert(subtree(s, n) == head + tail);
    assert(subtree(s, n)[0] == n);
    assert(subtree(s, n).contains(n));
    assert forall|x: int| #[trigger] subtree(s, n).contains(x) implies (x == n || exists|j: int|
        0 <= j < s[n].children.len() && #[trigger] subtree(s, s[n].children[j]).contains(x)) by {
        let i = choose|i: int| 0 <= i < subtree(s, n).len() && subtree(s, n)[i] == x;
        if i > 0 {
            assert(tail[i - 1] == x);
            assert(tail.contains(x));
        }
    }
    assert forall|x: int|
        (x == n || exists|j: int| 0 <= j < s[n].children.len() && #[trigger] subtree(
            s,
            s[n].children[j],
        ).contains(x)) implies #[trigger] subtree(s, n).contains(x) by {
        if x != n {
            assert(tail.contains(x));
            let i = choose|i: int| 0 <= i < tail.len() && tail[i] == x;
            assert(subtree(s, n)[i + 1] == x);
        }
    }
    assert forall|x: int| #[trigger] subtree(s, n).contains(x) implies n <= x < s.len() by {
        let i = choose|i: int| 0 <= i < subtree(s, n).len() && subtree(s, n)[i] == x;
        if i > 0 {
            assert(tail[i - 1] == x);
            assert(tail.contains(x));
        }
    }
}

/// Membership in `subtree_children(s, n, k)`: exactly the members of the
/// subtrees of `n`'s children from position `k` on; every member is a handle
/// in `n + 1 .. s.len()`.
pub proof fn lemma_children_mem(s: Seq<NodeView>, n: int, k: int)
    requires
        graph_wf(s),
        0 <= n < s.len(),
        0 <= k,
    ensures
        forall|x: int| #[trigger] subtree_children(s, n, k).contains(x) <==> exists|j: int|
            k <= j < s[n].children.len() && #[trigger] subtree(s, s[n].children[j]).contains(x),
        forall|x: int| #[trigger] subtree_children(s, n, k).contains(x) ==> n < x < s.len(),
    decreases s.len() - n, 0int, s[n].children.len() - k,
{
    assert(wf_at(s, n));
    if k < s[n].children.len() {
        let c = s[n].children[k];
        let head = subtree(s, c);
        let tail = subtree_children(s, n, k + 1);
        lemma_subtree_mem(s, c);
        lemma_children_mem(s, n, k + 1);
        assert(subtree_children(s, n, k) == head + tail);
        assert forall|x: int| #[trigger] subtree_children(s, n, k).contains(x) implies exists|
            j: int,
        |
            k <= j < s[n].children.len() && #[trigger] subtree(s, s[n].children[j]).contains(x) by {
            let i = choose|i: int|
                0 <= i < subtree_children(s, n, k).len() && subtree_children(s, n, k)[i] == x;
            if i < head.len() {
                assert(head[i] == x);
                assert(subtree(s, s[n].children[k]).contains(x));
            } else {
                assert(tail[i - head.len()] == x);
                assert(tail.contains(x));
            }
        }
        assert forall|x: int|
            (exists|j: int|
                k <= j < s[n].children.len() && #[trigger] subtree(s, s[n].children[j]).contains(
                    x,
                )) implies #[trigger] subtree_children(s, n, k).contains(x) by {
            let j = choose|j: int|
                k <= j < s[n].children.len() && subtree(s, s[n].children[j]).contains(x);
            if j == k {
                let i = choose|i: int| 0 <= i < head.len() && head[i] == x;
                assert(subtree_children(s, n, k)[i] == x);
            } else {
                assert(tail.contains(x));
                let i = choose|i: int| 0 <= i < tail.len() && tail[i] == x;
                assert(subtree_children(s, n, k)[head.len() + i] == x);
            }
        }
        assert forall|x: int| #[trigger] subtree_children(s, n, k).contains(x) implies n < x
            < s.len() by {
            let i = choose|i: int|
                0 <= i < subtree_children(s, n, k).len() && subtree_children(s, n, k)[i] == x;
            if i < head.len() {
                assert(head[i] == x);
                assert(subtree(s, c).contains(x));
            } else {
                assert(tail[i - head.len()] == x);
                assert(tail.contains(x));
            }
        }
    } else {
        assert(subtree_children(s, n, k) == Seq::<int>::empty());
        assert forall|x: int| !(#[trigger] subtree_children(s, n, k).contains(x)) by {
            assert(subtree_children(s, n, k).len() == 0);
        }
    }
}

/// A subtree is closed under taking children: every child of a member is a
/// member.
pub proof fn lemma_subtree_closed(s: Seq<NodeView>, n: int)
    requires
        graph_wf(s),
        0 <= n < s.len(),
    ensures
        forall|p: int, k: int|
            subtree(s, n).contains(p) && 0 <= k < s[p].children.len() ==> subtree(s, n).contains(
                #[trigger] s[p].children[k],
            ),
    decreases s.len() - n,
{
    lemma_subtree_mem(s, n);
    assert forall|p: int, k: int|
        subtree(s, n).contains(p) && 0 <= k < s[p].children.len() implies subtree(s, n).contains(
        #[trigger] s[p].children[k],
    ) by {
        let c = s[p].children[k];
        assert(wf_at(s, p));
        if p == n {
            lemma_subtree_mem(s, c);
            assert(subtree(s, c).contains(c));
        } else {
            let j = choose|j: int|
                0 <= j < s[n].children.len() && #[trigger] subtree(s, s[n].children[j]).contains(p);
            assert(wf_at(s, n));
            lemma_subtree_closed(s, s[n].children[j]);
            assert(subtree(s, s[n].children[j]).contains(c));
        }
    }
}

/// Every member of a subtree other than its root is attached, its parent is
/// a member too, and the parent's handle is smaller.
pub proof fn lemma_subtree_parent(s: Seq<NodeView>, n: int, x: int)
    requires
        graph_wf(s),
        0 <= n < s.len(),
        subtree(s, n).contains(x),
        x != n,
    ensures
        attached(s, x),
        is_child(s, parent_of(s, x), x),
        subtree(s, n).contains(parent_of(s, x)),
        parent_of(s, x) < x,
    decreases s.len() - n,
{
    lemma_subtree_mem(s, n);
    assert(wf_at(s, n));
    let j = choose|j: int|
        0 <= j < s[n].children.len() && #[trigger] subtree(s, s[n].children[j]).contains(x);
    let c = s[n].children[j];
    if x == c {
        assert(is_child(s, n, x));
        assert(attached(s, x));
        let p = parent_of(s, x);
        assert(is_child(s, p, x));
        lemma_parent_unique(s, p, n, x);
    } else {
        lemma_subtree_parent(s, c, x);
        lemma_subtree_mem(s, c);
    }
}

/// Two subtrees neither of whose roots lies in the other share no member:
/// a shared member would have one parent chain reaching both roots.
proof fn lemma_separate_subtrees_disjoint(s: Seq<NodeView>, a: int, b: int, x: int)
    requires
        graph_wf(s),
        0 <= a < s.len(),
        0 <= b < s.len(),
        a != b,
        !subtree(s, a).contains(b),
        !subtree(s, b).contains(a),
    ensures
        !(subtree(s, a).contains(x) && subtree(s, b).contains(x)),
    decreases x,
{
    if subtree(s, a).contains(x) && subtree(s, b).contains(x) {
        lemma_subtree_mem(s, a);
        lemma_subtree_mem(s, b);
        assert(x != a);
        assert(x != b);
        lemma_subtree_parent(s, a, x);
        lemma_subtree_parent(s, b, x);
        let p = parent_of(s, x);
        lemma_separate_subtrees_disjoint(s, a, b, p);
        assert(false);
    }
}

/// The subtrees of two distinct children of one node share no member.
pub proof fn lemma_sibling_subtrees_disjoint(s: Seq<NodeView>, n: int, k1: int, k2: int)
    requires
        graph_wf(s),
        0 <= n < s.len(),
        0 <= k1 < s[n].children.len(),
        0 <= k2 < s[n].children.len(),
        k1 != k2,
    ensures
        forall|x: int|
            !(#[trigger] subtree(s, s[n].children[k1]).contains(x) && #[trigger] subtree(
                s,
                s[n].children[k2],
            ).contains(x)),
{
    let c1 = s[n].children[k1];
    let c2 = s[n].children[k2];
    assert(wf_at(s, n));
    assert(s[n].children[k1] == s[n].children[k1]);
    assert(c1 != c2) by {
        if c1 == c2 {
            assert(s[n].children[k1] == s[n].children[k2]);
        }
    }
    assert(!subtree(s, c1).contains(c2)) by {
        if subtree(s, c1).contains(c2) {
            lemma_subtree_parent(s, c1, c2);
            lemma_parent_unique(s, parent_of(s, c2), n, c2);
            lemma_subtree_mem(s, c1);
        }
    }
    assert(!subtree(s, c2).contains(c1)) by {
        if subtree(s, c2).contains(c1) {
            lemma_subtree_parent(s, c2, c1);
            lemma_parent_unique(s, parent_of(s, c1), n, c1);
            lemma_subtree_mem(s, c2);
        }
    }
    assert forall|x: int|
        !(#[trigger] subtree(s, c1).contains(x) && #[trigger] subtree(s, c2).contains(x)) by {
        if subtree(s, c1).contains(x) && subtree(s, c2).contains(x) {
            lemma_subtree_mem(s, c1);
            lemma_separate_subtrees_disjoint(s, c1, c2, x);
        }
    }
}

/// A depth-first traversal of a well-formed scene graph meets every node of
/// the subtree exactly once.
pub proof fn lemma_subtree_no_duplicates(s: Seq<NodeView>, n: int)
    requires
        graph_wf(s),
        0 <= n < s.len(),
    ensures
        subtree(s, n).no_duplicates(),
    decreases s.len() - n, 1int, 0int,
{
    let head = seq![n];
    let tail = subtree_children(s, n, 0);
    lemma_children_no_duplicates(s, n, 0);
    lemma_children_mem(s, n, 0);
    assert forall|i: int, j: int| 0 <= i < head.len() && 0 <= j < tail.len() implies head[i]
        != tail[j] by {
        assert(tail.contains(tail[j]));
    }
    vstd::seq_lib::lemma_no_dup_in_concat(head, tail);
    assert(subtree(s, n) == head + tail);
}

proof fn lemma_children_no_duplicates(s: Seq<NodeView>, n: int, k: int)
    requires
        graph_wf(s),
        0 <= n < s.len(),
        0 <= k,
    ensures
        subtree_children(s, n, k).no_duplicates(),
    decreases s.len() - n, 0int, s[n].children.len() - k,
{
    assert(wf_at(s, n));
    if k < s[n].children.len() {
        let c = s[n].children[k];
        let head = subtree(s, c);
        let tail = subtree_children(s, n, k + 1);
        lemma_subtree_no_duplicates(s, c);
        lemma_children_no_duplicates(s, n, k + 1);
        lemma_children_mem(s, n, k + 1);
        assert forall|i: int, j: int| 0 <= i < head.len() && 0 <= j < tail.len() implies head[i]
            != tail[j] by {
            let x = tail[j];
            assert(tail.contains(x));
            let j2 = choose|j2: int|
                k + 1 <= j2 < s[n].children.len() && #[trigger] subtree(
                    s,
                    s[n].children[j2],
                ).contains(x);
            if head[i] == x {
                assert(head.contains(x));
                lemma_sibling_subtrees_disjoint(s, n, k, j2);
            }
        }
        vstd::seq_lib::lemma_no_dup_in_concat(head, tail);
        assert(subtree_children(s, n, k) == head + tail);
    }
}

/// The subtree is carved out by the child lists alone: two graphs whose
/// nodes carry the same child lists have the same subtrees, whatever their
/// transform parameters or cached matrices.
pub proof fn lemma_subtree_same_children(s1: Seq<NodeView>, s2: Seq<NodeView>, n: int)
    requires
        graph_wf(s1),
        s1.len() == s2.len(),
        forall|i: int| 0 <= i < s1.len() ==> s1[i].children == s2[i].children,
        0 <= n < s1.len(),
    ensures
        subtree(s2, n) == subtree(s1, n),
    decreases s1.len() - n, 1int, 0int,
{
    lemma_wf_from_same_children(s1, s2);
    lemma_children_same_children(s1, s2, n, 0);
}

proof fn lemma_children_same_children(s1: Seq<NodeView>, s2: Seq<NodeView>, n: int, k: int)
    requires
        graph_wf(s1),
        s1.len() == s2.len(),
        forall|i: int| 0 <= i < s1.len() ==> s1[i].children == s2[i].children,
        0 <= n < s1.len(),
        0 <= k,
    ensures
        subtree_children(s2, n, k) == subtree_children(s1, n, k),
    decreases s1.len() - n, 0int, s1[n].children.len() - k,
{
    lemma_wf_from_same_children(s1, s2);
    assert(wf_at(s1, n));
    if k < s1[n].children.len() {
        let c = s1[n].children[k];
        assert(s2[n].children[k] == c);
        lemma_subtree_same_children(s1, s2, c);
        lemma_children_same_children(s1, s2, n, k + 1);
    }
}

} // verus!
