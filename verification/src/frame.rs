//! Frame orchestration: what the render loop does once per iteration,
//! after the embedding program has measured the clock and snapshotted the
//! shared input state.
//!
//! A frame applies the pressed keys to the free-fly camera, applies the
//! scripted per-node animation updates, runs transform propagation from the
//! root with the identity seed, composes the view-projection matrix
//! `perspective * camera * offset`, and collects the frame's draw calls for
//! the collaborator to submit and present.

use vstd::prelude::*;
use nalgebra_glm::{Mat4, Vec1, Vec3};
use crate::camera::{keys_applied, Camera};
use crate::draw::{draw_seq, DrawCall};
use crate::glmath::{clone3, mul4, mul4_of};
use crate::input::KeySet;
use crate::propagate::propagated;
use crate::scene::{NodeView, Scene};

verus! {

/// One scripted per-node animation update: which node, which of its
/// per-frame fields, and the new value the animation table computed from
/// the elapsed time.
pub enum NodeUpdate {
    Position(usize, Vec3),
    Rotation(usize, Vec3),
    Scale(usize, Vec3),
}

/// The handle an update writes to.
pub open spec fn update_target(u: NodeUpdate) -> int {
    match u {
        NodeUpdate::Position(n, _) => n as int,
        NodeUpdate::Rotation(n, _) => n as int,
        NodeUpdate::Scale(n, _) => n as int,
    }
}

/// One update applied to the graph.
pub open spec fn update_applied(s: Seq<NodeView>, u: NodeUpdate) -> Seq<NodeView> {
    match u {
        NodeUpdate::Position(n, v) => s.update(n as int, (NodeView { position: v, ..s[n as int] })),
        NodeUpdate::Rotation(n, v) => s.update(n as int, (NodeView { rotation: v, ..s[n as int] })),
        NodeUpdate::Scale(n, v) => s.update(n as int, (NodeView { scale: v, ..s[n as int] })),
    }
}

/// A whole table of updates applied in order.
pub open spec fn updates_applied(s: Seq<NodeView>, us: Seq<NodeUpdate>) -> Seq<NodeView>
    decreases us.len(),
{
    if us.len() == 0 {
        s
    } else {
        updates_applied(update_applied(s, us[0]), us.drop_first())
    }
}

/// Applying one update after a run of updates is applying the run extended
/// by that update.
pub proof fn lemma_updates_applied_push(s: Seq<NodeView>, us: Seq<NodeUpdate>, u: NodeUpdate)
    ensures
        updates_applied(s, us.push(u)) == update_applied(updates_applied(s, us), u),
    decreases us.len(),
{
    reveal_with_fuel(updates_applied, 3);
    if us.len() == 0 {
        assert(us.push(u)[0] == u);
        assert(us.push(u).drop_first() =~= Seq::<NodeUpdate>::empty());
    } else {
        assert(us.push(u)[0] == us[0]);
        assert(us.push(u).drop_first() =~= us.drop_first().push(u));
        lemma_updates_applied_push(update_applied(s, us[0]), us.drop_first(), u);
    }
}

/// The renderer's long-lived state: the scene graph, the camera, and the
/// fixed matrices of the frame loop.
pub struct Engine {
    pub scene: Scene,
    pub camera: Camera,
    /// The perspective projection matrix.
    pub persp: Mat4,
    /// The fixed offset translation composed after the camera transform.
    pub offset: Mat4,
    /// The seed handed to propagation each frame; the embedding program
    /// passes the identity.
    pub seed: Mat4,
    /// The handle of the scene's root node.
    pub root: usize,
}

impl Engine {
    /// Assemble the engine from its parts.
    pub fn new(
        scene: Scene,
        camera: Camera,
        persp: Mat4,
        offset: Mat4,
        seed: Mat4,
        root: usize,
    ) -> (e: Engine)
        ensures
            e == (Engine { scene, camera, persp, offset, seed, root }),
    {
        Engine { scene, camera, persp, offset, seed, root }
    }

    /// One frame: apply the pressed keys to the camera, apply the scripted
    /// updates in order, propagate transforms from the root under the seed,
    /// and collect the draw calls under the view-projection matrix
    /// `persp * camera * offset`.  The caller submits the calls and
    /// presents the frame.
    pub fn frame(&mut self, keys: &KeySet, delta_time: &Vec1, updates: &Vec<NodeUpdate>) -> (calls:
        Vec<DrawCall>)
        requires
            old(self).scene.wf(),
            (old(self).root as int) < old(self).scene@.len(),
            forall|i: int|
                0 <= i < updates@.len() ==> 0 <= update_target(#[trigger] updates@[i]) < old(
                    self,
                ).scene@.len(),
        ensures
            final(self).scene.wf(),
            final(self).camera == (Camera {
                trans: keys_applied(
                    old(self).camera,
                    old(self).camera.trans,
                    keys.key_seq(),
                    *delta_time,
                ),
                ..old(self).camera
            }),
            final(self).persp == old(self).persp,
            final(self).offset == old(self).offset,
            final(self).seed == old(self).seed,
            final(self).root == old(self).root,
            propagated(
                updates_applied(old(self).scene@, updates@),
                final(self).scene@,
                old(self).root as int,
                old(self).seed,
            ),
            calls@ == draw_seq(
                final(self).scene@,
                old(self).root as int,
                mul4_of(mul4_of(old(self).persp, final(self).camera.trans), old(self).offset),
            ),
    {
        let ghost s0 = self.scene@;
        self.camera.apply_keys(keys, delta_time);
        let ghost cam1 = self.camera;
        let ghost persp0 = self.persp;
        let ghost offset0 = self.offset;
        let ghost seed0 = self.seed;
        let ghost root0 = self.root;
        let m = updates.len();
        let mut i: usize = 0;
        while i < m
            invariant
                m == updates@.len(),
                i <= m,
                forall|j: int|
                    0 <= j < updates@.len() ==> 0 <= update_target(#[trigger] updates@[j])
                        < s0.len(),
                self.scene@ == updates_applied(s0, updates@.subrange(0, i as int)),
                self.scene@.len() == s0.len(),
                s0.len() == old(self).scene@.len(),
                old(self).scene.wf() ==> self.scene.wf(),
                self.camera == cam1,
                self.persp == persp0,
                self.offset == offset0,
                self.seed == seed0,
                self.root == root0,
            decreases m - i,
        {
            let ghost before = self.scene@;
            match &updates[i] {
                NodeUpdate::Position(n, v) => {
                    self.scene.set_position(*n, clone3(v));
                },
                NodeUpdate::Rotation(n, v) => {
                    self.scene.set_rotation(*n, clone3(v));
                },
                NodeUpdate::Scale(n, v) => {
                    self.scene.set_scale(*n, clone3(v));
                },
            }
            proof {
                let pre = updates@.subrange(0, i as int);
                assert(self.scene@ == update_applied(before, updates@[i as int]));
                assert(updates@.subrange(0, i as int + 1) =~= pre.push(updates@[i as int]));
                lemma_updates_applied_push(s0, pre, updates@[i as int]);
            }
            i = i + 1;
        }
        proof {
            assert(updates@.subrange(0, m as int) =~= updates@);
        }
        let vp = mul4(&mul4(&self.persp, &self.camera.trans), &self.offset);
        let rt = self.root;
        self.scene.update_node_transformations(rt, &self.seed);
        let mut calls: Vec<DrawCall> = Vec::new();
        self.scene.draw_scene(rt, &vp, &mut calls);
        proof {
            assert(calls@ =~= draw_seq(
                self.scene@,
                rt as int,
                mul4_of(mul4_of(persp0, cam1.trans), offset0),
            ));
        }
        calls
    }
}

} // verus!
