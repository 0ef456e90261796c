//! Scene traversal / draw: the per-frame pass that walks the tree once and
//! collects one draw call for every node with bound geometry.
//!
//! A node with geometry contributes its model matrix (the cached world
//! matrix) and `mvp = view_projection * model` together with its buffer
//! handle and element count; a node without geometry contributes nothing
//! but is still traversed, so group nodes are transparent to drawing yet
//! their subtrees are not skipped.  The library only collects the calls;
//! submitting them to the rasterizer is the collaborator's part.

use vstd::prelude::*;
use nalgebra_glm::Mat4;
use crate::glmath::{clone4, mul4, mul4_of};
use crate::scene::{
    graph_wf, lemma_subtree_no_duplicates, subtree, subtree_children, wf_at, NodeView, Scene,
};

verus! {

/// One draw call, ready for submission: bind `vao_id`, hand `mvp` and
/// `model` to the shading stage, draw `index_count` indices.
pub struct DrawCall {
    pub vao_id: u32,
    pub index_count: i32,
    pub mvp: Mat4,
    pub model: Mat4,
}

/// The draw calls a single node contributes: one if geometry is bound,
/// none otherwise.
pub open spec fn node_draw(nd: NodeView, vp: Mat4) -> Seq<DrawCall> {
    if nd.vao_id != 0 {
        seq![
            (DrawCall {
                vao_id: nd.vao_id,
                index_count: nd.index_count,
                mvp: mul4_of(vp, nd.current_transformation_matrix),
                model: nd.current_transformation_matrix,
            }),
        ]
    } else {
        Seq::empty()
    }
}

/// The draw calls of the subtree rooted at `n`, in depth-first order.
pub open spec fn draw_seq(s: Seq<NodeView>, n: int, vp: Mat4) -> Seq<DrawCall>
    decreases s.len() - n, 1int, 0int,
        when graph_wf(s) && 0 <= n < s.len()
{
    node_draw(s[n], vp) + draw_children(s, n, 0, vp)
}

/// The draw calls of the subtrees of `n`'s children from position `k` on.
pub open spec fn draw_children(s: Seq<NodeView>, n: int, k: int, vp: Mat4) -> Seq<DrawCall>
    decreases s.len() - n, 0int, s[n].children.len() - k,
        when graph_wf(s) && 0 <= n < s.len() && 0 <= k
{
    if k < s[n].children.len() {
        proof {
            assert(wf_at(s, n));
        }
        draw_seq(s, s[n].children[k], vp) + draw_children(s, n, k + 1, vp)
    } else {
        Seq::empty()
    }
}

/// The handles in the subtree of `n` that carry geometry: the nodes that
/// draw one call each.
pub open spec fn geometry_nodes(s: Seq<NodeView>, n: int) -> Seq<int> {
    subtree(s, n).filter(|i: int| s[i].vao_id != 0)
}

/// The draw call a handle produces under view-projection matrix `vp`.
pub open spec fn call_of(s: Seq<NodeView>, vp: Mat4) -> spec_fn(int) -> DrawCall {
    |i: int|
        DrawCall {
            vao_id: s[i].vao_id,
            index_count: s[i].index_count,
            mvp: mul4_of(vp, s[i].current_transformation_matrix),
            model: s[i].current_transformation_matrix,
        }
}

/// The draw pass visits every node of the subtree exactly once (the
/// depth-first order has no duplicates) and issues exactly one call per
/// node with bound geometry, in that order: the draw list is the geometry
/// nodes mapped to their calls, so its length is their count.
pub proof fn lemma_draw_seq_characterized(s: Seq<NodeView>, n: int, vp: Mat4)
    requires
        graph_wf(s),
        0 <= n < s.len(),
    ensures
        subtree(s, n).no_duplicates(),
        draw_seq(s, n, vp) == geometry_nodes(s, n).map_values(call_of(s, vp)),
        draw_seq(s, n, vp).len() == geometry_nodes(s, n).len(),
    decreases s.len() - n, 1int, 0int,
{
    lemma_subtree_no_duplicates(s, n);
    let pred = |i: int| s[i].vao_id != 0;
    let f = call_of(s, vp);
    lemma_draw_children_characterized(s, n, 0, vp);
    broadcast use vstd::prelude::Seq::filter_distributes_over_add;

    assert(subtree(s, n) == seq![n] + subtree_children(s, n, 0));
    assert(seq![n].filter(pred) + subtree_children(s, n, 0).filter(pred) == subtree(
        s,
        n,
    ).filter(pred));
    reveal_with_fuel(Seq::<_>::filter, 2);
    assert(seq![n].drop_last() == Seq::<int>::empty());
    if pred(n) {
        assert(seq![n].filter(pred) =~= seq![n]);
        assert(seq![n].map_values(f) =~= node_draw(s[n], vp));
    } else {
        assert(seq![n].filter(pred) =~= Seq::<int>::empty());
    }
    lemma_map_values_distributes(seq![n].filter(pred), subtree_children(s, n, 0).filter(pred), f);
    assert(draw_seq(s, n, vp) =~= geometry_nodes(s, n).map_values(f));
}

proof fn lemma_draw_children_characterized(s: Seq<NodeView>, n: int, k: int, vp: Mat4)
    requires
        graph_wf(s),
        0 <= n < s.len(),
        0 <= k,
    ensures
        draw_children(s, n, k, vp) == subtree_children(s, n, k).filter(
            |i: int| s[i].vao_id != 0,
        ).map_values(call_of(s, vp)),
    decreases s.len() - n, 0int, s[n].children.len() - k,
{
    let pred = |i: int| s[i].vao_id != 0;
    let f = call_of(s, vp);
    assert(wf_at(s, n));
    if k < s[n].children.len() {
        let c = s[n].children[k];
        lemma_draw_seq_characterized(s, c, vp);
        lemma_draw_children_characterized(s, n, k + 1, vp);
        broadcast use vstd::prelude::Seq::filter_distributes_over_add;

        assert(subtree_children(s, n, k) == subtree(s, c) + subtree_children(s, n, k + 1));
        assert(subtree(s, c).filter(pred) + subtree_children(s, n, k + 1).filter(pred)
            == subtree_children(s, n, k).filter(pred));
        lemma_map_values_distributes(
            subtree(s, c).filter(pred),
            subtree_children(s, n, k + 1).filter(pred),
            f,
        );
        assert(draw_children(s, n, k, vp) =~= subtree_children(s, n, k).filter(pred).map_values(
            f,
        ));
    } else {
        reveal_with_fuel(Seq::<_>::filter, 1);
        assert(subtree_children(s, n, k) == Seq::<int>::empty());
        assert(subtree_children(s, n, k).filter(pred) =~= Seq::<int>::empty());
        assert(draw_children(s, n, k, vp) =~= subtree_children(s, n, k).filter(pred).map_values(
            f,
        ));
    }
}

/// Mapping a function over a concatenation is the concatenation of the
/// mapped halves.
proof fn lemma_map_values_distributes(a: Seq<int>, b: Seq<int>, f: spec_fn(int) -> DrawCall)
    ensures
        (a + b).map_values(f) == a.map_values(f) + b.map_values(f),
{
    assert((a + b).map_values(f) =~= a.map_values(f) + b.map_values(f));
}

/// A node with no children and no geometry draws nothing: its subtree is
/// itself alone and its draw list is empty.
pub proof fn lemma_leaf_without_geometry(s: Seq<NodeView>, d: int, vp: Mat4)
    requires
        graph_wf(s),
        0 <= d < s.len(),
        s[d].children.len() == 0,
        s[d].vao_id == 0,
    ensures
        subtree(s, d) == seq![d],
        draw_seq(s, d, vp) == Seq::<DrawCall>::empty(),
{
    assert(subtree(s, d) =~= seq![d]);
    assert(draw_seq(s, d, vp) =~= Seq::<DrawCall>::empty());
}

impl Scene {
    /// Walk the subtree rooted at `n` depth-first and append one draw call
    /// for every node with bound geometry, composing each node's cached
    /// world matrix with `view_projection_matrix`.
    pub fn draw_scene(&self, n: usize, view_projection_matrix: &Mat4, out: &mut Vec<DrawCall>)
        requires
            self.wf(),
            (n as int) < self@.len(),
        ensures
            final(out)@ == old(out)@ + draw_seq(self@, n as int, *view_projection_matrix),
        decreases self@.len() - n,
    {
        let ghost s = self@;
        let ghost ni = n as int;
        let ghost vp = *view_projection_matrix;
        let ghost out0 = old(out)@;
        proof {
            assert(wf_at(s, ni));
        }
        if self.vao_id(n) != 0 {
            let mvp = mul4(view_projection_matrix, self.current_transformation_matrix(n));
            let model = clone4(self.current_transformation_matrix(n));
            let vao_id = self.vao_id(n);
            let index_count = self.index_count(n);
            out.push(DrawCall { vao_id, index_count, mvp, model });
        }
        proof {
            assert(out@ =~= out0 + node_draw(s[ni], vp));
        }
        let cnt = self.child_count(n);
        let mut k: usize = 0;
        while k < cnt
            invariant
                s == self@,
                out0 == old(out)@,
                vp == *view_projection_matrix,
                graph_wf(s),
                self.wf(),
                0 <= ni < s.len(),
                ni == n as int,
                cnt == s[ni].children.len(),
                k <= cnt,
                out@ + draw_children(s, ni, k as int, vp) == out0 + draw_seq(s, ni, vp),
            decreases cnt - k,
        {
            proof {
                assert(wf_at(s, ni));
            }
            let c = self.child(n, k);
            let ghost before = out@;
            self.draw_scene(c, view_projection_matrix, out);
            proof {
                assert(draw_children(s, ni, k as int, vp) == draw_seq(s, c as int, vp)
                    + draw_children(s, ni, k as int + 1, vp));
                assert(out@ + draw_children(s, ni, k as int + 1, vp) =~= before + draw_children(
                    s,
                    ni,
                    k as int,
                    vp,
                ));
            }
            k = k + 1;
        }
        proof {
            assert(draw_children(s, ni, cnt as int, vp) == Seq::<DrawCall>::empty());
            assert(out@ + Seq::<DrawCall>::empty() =~= out@);
        }
    }
}

} // verus!
