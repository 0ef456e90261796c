//! The free-fly camera: a single accumulated transform steered by the
//! pressed-key snapshot once per frame.
//!
//! Translation keys compose a translation along a fixed axis scaled by the
//! frame's delta time onto the transform; rotation keys compose a fixed
//! per-frame rotation (deliberately not scaled by delta time, so the
//! angular rate follows the frame rate); the reset key restores the home
//! matrix.  The per-second velocity vectors,
//! the fixed rotation matrices and the home matrix are plain data the
//! caller supplies once at construction.

use vstd::prelude::*;
use nalgebra_glm::{Mat4, Vec1, Vec3};
use crate::glmath::{clone4, mul4, mul4_of, scale3, scale3_of, translation, translation_of};
use crate::input::{Key, KeySet};

verus! {

/// The camera transform and the fixed data that steers it.
pub struct Camera {
    /// The accumulated camera transform.
    pub trans: Mat4,
    /// What the reset key restores; the embedding program passes the
    /// identity.
    pub home: Mat4,
    /// Per-second velocity of each translation key.
    pub vel_w: Vec3,
    pub vel_s: Vec3,
    pub vel_a: Vec3,
    pub vel_d: Vec3,
    pub vel_q: Vec3,
    pub vel_e: Vec3,
    /// Fixed per-frame rotation of each rotation key.
    pub rot_up: Mat4,
    pub rot_down: Mat4,
    pub rot_left: Mat4,
    pub rot_right: Mat4,
}

/// What one pressed key does to the camera transform `t` during a frame
/// with delta time `dt`.
pub open spec fn key_applied(cam: Camera, t: Mat4, key: Key, dt: Vec1) -> Mat4 {
    match key {
        Key::W => mul4_of(translation_of(scale3_of(cam.vel_w, dt)), t),
        Key::S => mul4_of(translation_of(scale3_of(cam.vel_s, dt)), t),
        Key::A => mul4_of(translation_of(scale3_of(cam.vel_a, dt)), t),
        Key::D => mul4_of(translation_of(scale3_of(cam.vel_d, dt)), t),
        Key::Q => mul4_of(translation_of(scale3_of(cam.vel_q, dt)), t),
        Key::E => mul4_of(translation_of(scale3_of(cam.vel_e, dt)), t),
        Key::Up => mul4_of(cam.rot_up, t),
        Key::Down => mul4_of(cam.rot_down, t),
        Key::Left => mul4_of(cam.rot_left, t),
        Key::Right => mul4_of(cam.rot_right, t),
        Key::R => cam.home,
        Key::Other(_) => t,
    }
}

/// What a whole snapshot of pressed keys does: each key applied in order.
pub open spec fn keys_applied(cam: Camera, t: Mat4, ks: Seq<Key>, dt: Vec1) -> Mat4
    decreases ks.len(),
{
    if ks.len() == 0 {
        t
    } else {
        keys_applied(cam, key_applied(cam, t, ks[0], dt), ks.drop_first(), dt)
    }
}

/// Applying one key after a run of keys is applying the run extended by
/// that key.
pub proof fn lemma_keys_applied_push(cam: Camera, t: Mat4, ks: Seq<Key>, k: Key, dt: Vec1)
    ensures
        keys_applied(cam, t, ks.push(k), dt) == key_applied(
            cam,
            keys_applied(cam, t, ks, dt),
            k,
            dt,
        ),
    decreases ks.len(),
{
    reveal_with_fuel(keys_applied, 3);
    if ks.len() == 0 {
        assert(ks.push(k)[0] == k);
        assert(ks.push(k).drop_first() =~= Seq::<Key>::empty());
    } else {
        assert(ks.push(k)[0] == ks[0]);
        assert(ks.push(k).drop_first() =~= ks.drop_first().push(k));
        lemma_keys_applied_push(cam, key_applied(cam, t, ks[0], dt), ks.drop_first(), k, dt);
    }
}

impl Camera {
    /// A camera at `home`, with the given per-key velocities and fixed
    /// rotations.
    pub fn new(
        home: Mat4,
        vel_w: Vec3,
        vel_s: Vec3,
        vel_a: Vec3,
        vel_d: Vec3,
        vel_q: Vec3,
        vel_e: Vec3,
        rot_up: Mat4,
        rot_down: Mat4,
        rot_left: Mat4,
        rot_right: Mat4,
    ) -> (c: Camera)
        ensures
            c == (Camera {
                trans: home,
                home,
                vel_w,
                vel_s,
                vel_a,
                vel_d,
                vel_q,
                vel_e,
                rot_up,
                rot_down,
                rot_left,
                rot_right,
            }),
    {
        let trans = clone4(&home);
        Camera {
            trans,
            home,
            vel_w,
            vel_s,
            vel_a,
            vel_d,
            vel_q,
            vel_e,
            rot_up,
            rot_down,
            rot_left,
            rot_right,
        }
    }

    /// Apply one pressed key to the camera transform.
    pub fn apply_key(&mut self, key: Key, delta_time: &Vec1)
        ensures
            *final(self) == (Camera {
                trans: key_applied(*old(self), old(self).trans, key, *delta_time),
                ..*old(self)
            }),
    {
        match key {
            Key::W => {
                let step = translation(&scale3(&self.vel_w, delta_time));
                self.trans = mul4(&step, &self.trans);
            },
            Key::S => {
                let step = translation(&scale3(&self.vel_s, delta_time));
                self.trans = mul4(&step, &self.trans);
            },
            Key::A => {
                let step = translation(&scale3(&self.vel_a, delta_time));
                self.trans = mul4(&step, &self.trans);
            },
            Key::D => {
                let step = translation(&scale3(&self.vel_d, delta_time));
                self.trans = mul4(&step, &self.trans);
            },
            Key::Q => {
                let step = translation(&scale3(&self.vel_q, delta_time));
                self.trans = mul4(&step, &self.trans);
            },
            Key::E => {
                let step = translation(&scale3(&self.vel_e, delta_time));
                self.trans = mul4(&step, &self.trans);
            },
            Key::Up => {
                self.trans = mul4(&self.rot_up, &self.trans);
            },
            Key::Down => {
                self.trans = mul4(&self.rot_down, &self.trans);
            },
            Key::Left => {
                self.trans = mul4(&self.rot_left, &self.trans);
            },
            Key::Right => {
                self.trans = mul4(&self.rot_right, &self.trans);
            },
            Key::R => {
                self.trans = clone4(&self.home);
            },
            Key::Other(_) => {},
        }
    }

    /// Apply the whole snapshot of pressed keys, in press order, as the
    /// frame loop does once per frame.
    pub fn apply_keys(&mut self, keys: &KeySet, delta_time: &Vec1)
        ensures
            *final(self) == (Camera {
                trans: keys_applied(*old(self), old(self).trans, keys.key_seq(), *delta_time),
                ..*old(self)
            }),
    {
        let ghost cam0 = *self;
        let n = keys.key_count();
        let mut i: usize = 0;
        while i < n
            invariant
                n == keys.key_seq().len(),
                i <= n,
                *self == (Camera {
                    trans: keys_applied(
                        cam0,
                        cam0.trans,
                        keys.key_seq().subrange(0, i as int),
                        *delta_time,
                    ),
                    ..cam0
                }),
            decreases n - i,
        {
            let k = keys.key_at(i);
            self.apply_key(k, delta_time);
            proof {
                let pre = keys.key_seq().subrange(0, i as int);
                assert(keys.key_seq().subrange(0, i as int + 1) =~= pre.push(
                    keys.key_seq()[i as int],
                ));
                lemma_keys_applied_push(cam0, cam0.trans, pre, keys.key_seq()[i as int], *delta_time);
            }
            i = i + 1;
        }
        proof {
            assert(keys.key_seq().subrange(0, n as int) =~= keys.key_seq());
        }
    }
}

} // verus!
