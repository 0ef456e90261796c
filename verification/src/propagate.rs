//! Transform propagation: the per-frame pass that recomputes every node's
//! world matrix from the accumulated parent transform.
//!
//! For each node the pass builds the local matrix
//! `T(position) * T(reference_point) * Rz * Ry * Rx * S * T(-reference_point)`
//! (right to left: translate relative to the pivot, scale, rotate about z
//! then y then x, translate back, apply the node's own offset), prepends the
//! parent's accumulated matrix, stores the product in the node's cache and
//! recurses depth-first into every child with that product as the new parent
//! matrix.  The pass is a pure function of the parent matrix and the node
//! fields; `propagated` spells out exactly what it leaves behind.

use vstd::prelude::*;
use nalgebra_glm::Mat4;
use crate::glmath::{
    mul4, mul4_of, neg3, neg3_of, rot_x, rot_x_of, rot_y, rot_y_of, rot_z, rot_z_of, scaling,
    scaling_of, translation, translation_of,
};
use crate::scene::{
    graph_wf, lemma_sibling_subtrees_disjoint, lemma_subtree_closed, lemma_subtree_mem,
    lemma_parent_unique, lemma_subtree_parent, lemma_subtree_same_children, lemma_wf_same_children,
    parent_of, subtree, wf_at, NodeView, Scene,
};

verus! {

/// The node's local matrix: the exact composition
/// `T(position) * T(reference_point) * Rz * Ry * Rx * S * T(-reference_point)`,
/// associated right to left as the pass builds it.
pub open spec fn local_of(nd: NodeView) -> Mat4 {
    mul4_of(
        translation_of(nd.position),
        mul4_of(
            translation_of(nd.reference_point),
            mul4_of(
                rot_z_of(nd.rotation),
                mul4_of(
                    rot_y_of(nd.rotation),
                    mul4_of(
                        rot_x_of(nd.rotation),
                        mul4_of(scaling_of(nd.scale), translation_of(neg3_of(nd.reference_point))),
                    ),
                ),
            ),
        ),
    )
}

/// `b` is `a` with at most the cached world matrix changed: transform
/// parameters, geometry binding and child list all agree.
pub open spec fn same_shape(a: NodeView, b: NodeView) -> bool {
    b == (NodeView { current_transformation_matrix: b.current_transformation_matrix, ..a })
}

/// What one propagation pass rooted at `n` under parent matrix `pm` leaves
/// behind: nothing but world-matrix caches change, caches outside the
/// subtree of `n` keep their old value, the root's cache becomes
/// `pm * local`, and along every edge inside the subtree the child's cache
/// is the parent's new cache times the child's local matrix.
pub open spec fn propagated(pre: Seq<NodeView>, post: Seq<NodeView>, n: int, pm: Mat4) -> bool {
    &&& post.len() == pre.len()
    &&& forall|i: int| 0 <= i < pre.len() ==> same_shape(pre[i], #[trigger] post[i])
    &&& forall|i: int|
        0 <= i < pre.len() && !subtree(pre, n).contains(i)
            ==> #[trigger] post[i].current_transformation_matrix
            == pre[i].current_transformation_matrix
    &&& post[n].current_transformation_matrix == mul4_of(pm, local_of(pre[n]))
    &&& forall|p: int, k: int|
        #![trigger subtree(pre, n).contains(p), pre[p].children[k]]
        subtree(pre, n).contains(p) && 0 <= k < pre[p].children.len()
            ==> post[pre[p].children[k]].current_transformation_matrix == mul4_of(
            post[p].current_transformation_matrix,
            local_of(pre[pre[p].children[k]]),
        )
}

/// Fields other than the cached matrix, and the local matrix built from
/// them, carry over between nodes of the same shape.
pub proof fn lemma_same_shape_fields(a: NodeView, b: NodeView)
    requires
        same_shape(a, b),
    ensures
        b.position == a.position,
        b.rotation == a.rotation,
        b.scale == a.scale,
        b.reference_point == a.reference_point,
        b.vao_id == a.vao_id,
        b.index_count == a.index_count,
        b.children == a.children,
        local_of(b) == local_of(a),
{
}

/// A node of the prefix: it lies in the subtree of one of the first `k`
/// children of `n`.
spec fn in_prefix(s: Seq<NodeView>, n: int, k: int, i: int) -> bool {
    exists|j: int| 0 <= j < k && #[trigger] subtree(s, s[n].children[j]).contains(i)
}

/// What holds after the subtrees of the first `k` children of `ni` have
/// been repropagated under the freshly computed root matrix `world`,
/// starting from graph `s0`.
spec fn pass_inv(s0: Seq<NodeView>, cur: Seq<NodeView>, ni: int, k: int, world: Mat4) -> bool {
    &&& cur.len() == s0.len()
    &&& forall|i: int| 0 <= i < s0.len() ==> same_shape(s0[i], #[trigger] cur[i])
    &&& forall|i: int|
        0 <= i < s0.len() && !in_prefix(s0, ni, k, i)
            ==> #[trigger] cur[i].current_transformation_matrix
            == s0[i].current_transformation_matrix
    &&& forall|j: int|
        #![trigger s0[ni].children[j]]
        0 <= j < k ==> cur[s0[ni].children[j]].current_transformation_matrix == mul4_of(
            world,
            local_of(s0[s0[ni].children[j]]),
        )
    &&& forall|p: int, k2: int|
        #![trigger in_prefix(s0, ni, k, p), s0[p].children[k2]]
        in_prefix(s0, ni, k, p) && 0 <= k2 < s0[p].children.len()
            ==> cur[s0[p].children[k2]].current_transformation_matrix == mul4_of(
            cur[p].current_transformation_matrix,
            local_of(s0[s0[p].children[k2]]),
        )
}

/// One child processed: repropagating the subtree of child `ki` extends the
/// pass from the first `ki` children to the first `ki + 1`.
proof fn lemma_pass_step(
    s0: Seq<NodeView>,
    pre: Seq<NodeView>,
    cur: Seq<NodeView>,
    ni: int,
    ki: int,
    world: Mat4,
)
    requires
        graph_wf(s0),
        0 <= ni < s0.len(),
        0 <= ki < s0[ni].children.len(),
        pass_inv(s0, pre, ni, ki, world),
        propagated(pre, cur, s0[ni].children[ki], world),
    ensures
        pass_inv(s0, cur, ni, ki + 1, world),
{
    let ci = s0[ni].children[ki];
    assert(wf_at(s0, ni));
    assert forall|i: int| 0 <= i < s0.len() implies s0[i].children == pre[i].children by {
        lemma_same_shape_fields(s0[i], pre[i]);
    }
    lemma_subtree_same_children(s0, pre, ci);
    lemma_subtree_mem(s0, ci);
    assert forall|i: int| 0 <= i < s0.len() implies same_shape(s0[i], #[trigger] cur[i]) by {
        assert(same_shape(s0[i], pre[i]));
        assert(same_shape(pre[i], cur[i]));
    }
    assert forall|i: int|
        0 <= i < s0.len() && !in_prefix(s0, ni, ki + 1, i) implies #[trigger] cur[i].current_transformation_matrix
        == s0[i].current_transformation_matrix by {
        assert(!in_prefix(s0, ni, ki, i)) by {
            if in_prefix(s0, ni, ki, i) {
                let j = choose|j: int|
                    0 <= j < ki && #[trigger] subtree(s0, s0[ni].children[j]).contains(i);
                assert(subtree(s0, s0[ni].children[j]).contains(i));
            }
        }
        assert(!subtree(s0, ci).contains(i)) by {
            if subtree(s0, ci).contains(i) {
                assert(subtree(s0, s0[ni].children[ki]).contains(i));
            }
        }
        assert(cur[i].current_transformation_matrix == pre[i].current_transformation_matrix);
    }
    assert forall|j: int|
        #![trigger s0[ni].children[j]]
        0 <= j < ki + 1 implies cur[s0[ni].children[j]].current_transformation_matrix == mul4_of(
        world,
        local_of(s0[s0[ni].children[j]]),
    ) by {
        let t = s0[ni].children[j];
        if j < ki {
            lemma_subtree_mem(s0, t);
            lemma_sibling_subtrees_disjoint(s0, ni, j, ki);
            assert(!subtree(s0, ci).contains(t));
            assert(cur[t].current_transformation_matrix
                == pre[t].current_transformation_matrix);
        } else {
            lemma_same_shape_fields(s0[ci], pre[ci]);
            assert(cur[ci].current_transformation_matrix == mul4_of(world, local_of(pre[ci])));
        }
    }
    assert forall|p: int, k2: int|
        #![trigger in_prefix(s0, ni, ki + 1, p), s0[p].children[k2]]
        in_prefix(s0, ni, ki + 1, p) && 0 <= k2
            < s0[p].children.len() implies cur[s0[p].children[k2]].current_transformation_matrix
        == mul4_of(cur[p].current_transformation_matrix, local_of(s0[s0[p].children[k2]])) by {
        let j = choose|j: int|
            0 <= j < ki + 1 && #[trigger] subtree(s0, s0[ni].children[j]).contains(p);
        lemma_subtree_mem(s0, s0[ni].children[j]);
        assert(0 <= p < s0.len());
        assert(wf_at(s0, p));
        let t = s0[p].children[k2];
        assert(p < t < s0.len());
        if j < ki {
            lemma_subtree_closed(s0, s0[ni].children[j]);
            assert(subtree(s0, s0[ni].children[j]).contains(t));
            lemma_sibling_subtrees_disjoint(s0, ni, j, ki);
            assert(!subtree(s0, ci).contains(p));
            assert(!subtree(s0, ci).contains(t));
            assert(in_prefix(s0, ni, ki, p));
            assert(pre[t].current_transformation_matrix == mul4_of(
                pre[p].current_transformation_matrix,
                local_of(s0[t]),
            ));
            assert(cur[t].current_transformation_matrix
                == pre[t].current_transformation_matrix);
            assert(cur[p].current_transformation_matrix
                == pre[p].current_transformation_matrix);
        } else {
            assert(subtree(s0, ci).contains(p));
            assert(subtree(pre, ci).contains(p));
            lemma_same_shape_fields(s0[p], pre[p]);
            assert(pre[p].children[k2] == t);
            lemma_same_shape_fields(s0[t], pre[t]);
            assert(cur[t].current_transformation_matrix == mul4_of(
                cur[p].current_transformation_matrix,
                local_of(pre[t]),
            ));
        }
    }
}

/// All children processed and the root's cache stored: the whole pass
/// satisfies `propagated`.
proof fn lemma_pass_finish(
    s0: Seq<NodeView>,
    cur: Seq<NodeView>,
    fin: Seq<NodeView>,
    ni: int,
    pm: Mat4,
    world: Mat4,
)
    requires
        graph_wf(s0),
        0 <= ni < s0.len(),
        pass_inv(s0, cur, ni, s0[ni].children.len() as int, world),
        world == mul4_of(pm, local_of(s0[ni])),
        fin == cur.update(ni, (NodeView { current_transformation_matrix: world, ..cur[ni] })),
    ensures
        propagated(s0, fin, ni, pm),
{
    let cnt = s0[ni].children.len() as int;
    lemma_subtree_mem(s0, ni);
    assert(wf_at(s0, ni));
    assert forall|i: int| 0 <= i < s0.len() implies same_shape(s0[i], #[trigger] fin[i]) by {
        assert(same_shape(s0[i], cur[i]));
        if i == ni {
            lemma_same_shape_fields(s0[ni], cur[ni]);
        }
    }
    assert forall|i: int|
        0 <= i < s0.len() && !subtree(s0, ni).contains(i) implies #[trigger] fin[i].current_transformation_matrix
        == s0[i].current_transformation_matrix by {
        assert(i != ni);
        assert(!in_prefix(s0, ni, cnt, i)) by {
            if in_prefix(s0, ni, cnt, i) {
                let j = choose|j: int|
                    0 <= j < cnt && #[trigger] subtree(s0, s0[ni].children[j]).contains(i);
                assert(subtree(s0, s0[ni].children[j]).contains(i));
                assert(subtree(s0, ni).contains(i));
            }
        }
    }
    assert(fin[ni].current_transformation_matrix == world);
    assert forall|p: int, k2: int|
        #![trigger subtree(s0, ni).contains(p), s0[p].children[k2]]
        subtree(s0, ni).contains(p) && 0 <= k2
            < s0[p].children.len() implies fin[s0[p].children[k2]].current_transformation_matrix
        == mul4_of(fin[p].current_transformation_matrix, local_of(s0[s0[p].children[k2]])) by {
        let t = s0[p].children[k2];
        assert(wf_at(s0, p));
        assert(p < t < s0.len());
        assert(ni <= p);
        if p == ni {
            assert(cur[t].current_transformation_matrix == mul4_of(world, local_of(s0[t])));
            assert(t != ni);
        } else {
            assert(in_prefix(s0, ni, cnt, p)) by {
                let j = choose|j: int|
                    0 <= j < s0[ni].children.len() && #[trigger] subtree(
                        s0,
                        s0[ni].children[j],
                    ).contains(p);
                assert(subtree(s0, s0[ni].children[j]).contains(p));
            }
            assert(cur[t].current_transformation_matrix == mul4_of(
                cur[p].current_transformation_matrix,
                local_of(s0[t]),
            ));
            assert(t != ni);
        }
    }
}

/// After a propagation pass rooted at `root` under parent matrix `pm`,
/// every node of the subtree carries `parent_matrix * local_matrix`: the
/// root composes onto `pm`, and every other node composes onto its own
/// parent's freshly computed matrix.
pub proof fn lemma_propagation_composes(
    s: Seq<NodeView>,
    post: Seq<NodeView>,
    root: int,
    pm: Mat4,
    i: int,
)
    requires
        graph_wf(s),
        0 <= root < s.len(),
        propagated(s, post, root, pm),
        subtree(s, root).contains(i),
    ensures
        i == root ==> post[i].current_transformation_matrix == mul4_of(pm, local_of(s[i])),
        i != root ==> post[i].current_transformation_matrix == mul4_of(
            post[parent_of(s, i)].current_transformation_matrix,
            local_of(s[i]),
        ),
{
    if i != root {
        lemma_subtree_parent(s, root, i);
        let p = parent_of(s, i);
        let k = choose|k: int| 0 <= k < s[p].children.len() && #[trigger] s[p].children[k] == i;
        assert(subtree(s, root).contains(p) && s[p].children[k] == i);
    }
}

/// Propagation is a pure function of the parent matrix and the node fields:
/// two passes over the same graph with the same parent matrix leave
/// identical states behind.
pub proof fn lemma_propagation_pure(
    s: Seq<NodeView>,
    b: Seq<NodeView>,
    c: Seq<NodeView>,
    root: int,
    pm: Mat4,
)
    requires
        graph_wf(s),
        0 <= root < s.len(),
        propagated(s, b, root, pm),
        propagated(s, c, root, pm),
    ensures
        b == c,
{
    assert forall|i: int| 0 <= i < s.len() implies b[i] == #[trigger] c[i] by {
        lemma_cache_determined(s, b, c, root, pm, i);
        lemma_same_shape_fields(s[i], b[i]);
        lemma_same_shape_fields(s[i], c[i]);
        assert(b[i] == (NodeView {
            current_transformation_matrix: b[i].current_transformation_matrix,
            ..s[i]
        }));
        assert(c[i] == (NodeView {
            current_transformation_matrix: c[i].current_transformation_matrix,
            ..s[i]
        }));
    }
    assert(b =~= c);
}

proof fn lemma_cache_determined(
    s: Seq<NodeView>,
    b: Seq<NodeView>,
    c: Seq<NodeView>,
    root: int,
    pm: Mat4,
    i: int,
)
    requires
        graph_wf(s),
        0 <= root < s.len(),
        0 <= i < s.len(),
        propagated(s, b, root, pm),
        propagated(s, c, root, pm),
    ensures
        b[i].current_transformation_matrix == c[i].current_transformation_matrix,
    decreases i,
{
    if subtree(s, root).contains(i) {
        if i != root {
            lemma_subtree_parent(s, root, i);
            let p = parent_of(s, i);
            lemma_subtree_mem(s, root);
            lemma_cache_determined(s, b, c, root, pm, p);
            lemma_propagation_composes(s, b, root, pm, i);
            lemma_propagation_composes(s, c, root, pm, i);
        }
    }
}

/// A change confined to one node is invisible outside that node's subtree:
/// propagating two graphs that differ only in node `d`'s transform
/// parameters or geometry leaves identical world matrices everywhere
/// outside the subtree of `d`.  In particular a childless group node does
/// not affect its siblings' matrices, whatever is done to it.
pub proof fn lemma_node_change_is_local(
    s: Seq<NodeView>,
    s2: Seq<NodeView>,
    b: Seq<NodeView>,
    b2: Seq<NodeView>,
    root: int,
    pm: Mat4,
    d: int,
    i: int,
)
    requires
        graph_wf(s),
        0 <= root < s.len(),
        0 <= d < s.len(),
        0 <= i < s.len(),
        s2.len() == s.len(),
        forall|j: int| 0 <= j < s.len() ==> s2[j].children == s[j].children,
        forall|j: int| 0 <= j < s.len() && j != d ==> s2[j] == s[j],
        propagated(s, b, root, pm),
        propagated(s2, b2, root, pm),
        !subtree(s, d).contains(i),
    ensures
        b2[i].current_transformation_matrix == b[i].current_transformation_matrix,
    decreases i,
{
    lemma_wf_same_children(s, s2);
    lemma_subtree_same_children(s, s2, root);
    lemma_subtree_same_children(s, s2, d);
    lemma_subtree_mem(s, d);
    assert(i != d);
    if subtree(s, root).contains(i) {
        if i == root {
            assert(s2[root] == s[root]);
        } else {
            lemma_subtree_parent(s, root, i);
            lemma_subtree_parent(s2, root, i);
            let p = parent_of(s, i);
            lemma_parent_unique(s2, parent_of(s2, i), p, i);
            lemma_subtree_mem(s, root);
            assert(!subtree(s, d).contains(p)) by {
                if subtree(s, d).contains(p) {
                    lemma_subtree_closed(s, d);
                    let k = choose|k: int|
                        0 <= k < s[p].children.len() && #[trigger] s[p].children[k] == i;
                    assert(subtree(s, d).contains(s[p].children[k]));
                }
            }
            lemma_node_change_is_local(s, s2, b, b2, root, pm, d, p);
            lemma_propagation_composes(s, b, root, pm, i);
            lemma_propagation_composes(s2, b2, root, pm, i);
            assert(s2[i] == s[i]);
        }
    } else {
        assert(b[i].current_transformation_matrix == s[i].current_transformation_matrix);
        assert(b2[i].current_transformation_matrix == s2[i].current_transformation_matrix);
        assert(s2[i] == s[i]);
    }
}

/// Attaching a child and then propagating gives the child a matrix built
/// from the parent's newest matrix and the child's newest fields: along
/// every edge of the subtree, nothing is cached across structural or
/// parameter changes.
pub proof fn lemma_child_reflects_parent(
    s: Seq<NodeView>,
    post: Seq<NodeView>,
    root: int,
    pm: Mat4,
    p: int,
    k: int,
)
    requires
        graph_wf(s),
        0 <= root < s.len(),
        propagated(s, post, root, pm),
        subtree(s, root).contains(p),
        0 <= k < s[p].children.len(),
    ensures
        post[s[p].children[k]].current_transformation_matrix == mul4_of(
            post[p].current_transformation_matrix,
            local_of(s[s[p].children[k]]),
        ),
{
}

impl Scene {
    /// Recompute the world matrix of every node in the subtree rooted at
    /// `n`, composing each node's local matrix onto the accumulated parent
    /// transform `transformation_so_far`; a frame starts this at the root
    /// with the identity seed.
    pub fn update_node_transformations(&mut self, n: usize, transformation_so_far: &Mat4)
        requires
            old(self).wf(),
            (n as int) < old(self)@.len(),
        ensures
            final(self).wf(),
            propagated(old(self)@, final(self)@, n as int, *transformation_so_far),
        decreases old(self)@.len() - n,
    {
        let ghost s0 = old(self)@;
        let ghost ni = n as int;
        proof {
            assert(wf_at(s0, ni));
        }
        let nref = neg3(self.reference_point(n));
        let m1 = translation(&nref);
        let m2 = mul4(&scaling(self.scale(n)), &m1);
        let m3 = mul4(&rot_x(self.rotation(n)), &m2);
        let m4 = mul4(&rot_y(self.rotation(n)), &m3);
        let m5 = mul4(&rot_z(self.rotation(n)), &m4);
        let m6 = mul4(&translation(self.reference_point(n)), &m5);
        let m7 = mul4(&translation(self.position(n)), &m6);
        let world = mul4(transformation_so_far, &m7);
        proof {
            assert(world == mul4_of(*transformation_so_far, local_of(s0[ni])));
        }
        let cnt = self.child_count(n);
        let mut k: usize = 0;
        while k < cnt
            invariant
                s0 == old(self)@,
                graph_wf(s0),
                self.wf(),
                0 <= ni < s0.len(),
                ni == n as int,
                cnt == s0[ni].children.len(),
                k <= cnt,
                pass_inv(s0, self@, ni, k as int, world),
            decreases cnt - k,
        {
            proof {
                assert(same_shape(s0[ni], self@[ni]));
                lemma_same_shape_fields(s0[ni], self@[ni]);
                assert(wf_at(s0, ni));
            }
            let c = self.child(n, k);
            let ghost ci = c as int;
            proof {
                assert(ci == s0[ni].children[k as int]);
                assert(ni < ci < s0.len());
            }
            let ghost pre = self@;
            self.update_node_transformations(c, &world);
            proof {
                lemma_pass_step(s0, pre, self@, ni, k as int, world);
            }
            k = k + 1;
        }
        let ghost cur = self@;
        self.set_current_transformation_matrix(n, world);
        proof {
            lemma_pass_finish(s0, cur, self@, ni, *transformation_so_far, world);
        }
    }
}

} // verus!
