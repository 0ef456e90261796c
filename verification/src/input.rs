//! Shared input state: the set of currently pressed keys.
//!
//! The event thread inserts and removes keys as the windowing collaborator
//! reports presses and releases; the render thread reads a snapshot once per
//! frame.  Membership is the whole story: pressing an already pressed key and
//! releasing an absent key are both no-ops.

use vstd::prelude::*;
use nalgebra_glm::Vec2;
use crate::glmath::{add2, add2_of, clone2};

verus! {

/// Identifier of a key, as the windowing collaborator reports it.  The keys
/// that steer the camera have variants of their own; any other key is carried
/// by its raw code.
#[derive(Clone, Copy, PartialEq, Eq, Structural, Debug)]
pub enum Key {
    W,
    A,
    S,
    D,
    Q,
    E,
    Up,
    Down,
    Left,
    Right,
    R,
    Other(u32),
}

/// The set of currently pressed keys, stored without duplicates so that its
/// length is the number of distinct pressed keys.
pub struct KeySet {
    keys: Vec<Key>,
}

impl View for KeySet {
    type V = Set<Key>;

    closed spec fn view(&self) -> Set<Key> {
        self.keys@.to_set()
    }
}

impl KeySet {
    /// Validity: no key is stored twice.  Established by `new` and preserved
    /// by every method.
    pub closed spec fn wf(&self) -> bool {
        self.keys@.no_duplicates()
    }

    /// An empty set: no key is pressed.
    pub fn new() -> (s: KeySet)
        ensures
            s.wf(),
            s@ == Set::<Key>::empty(),
    {
        let s = KeySet { keys: Vec::new() };
        proof {
            assert(s.keys@.to_set() =~= Set::<Key>::empty());
        }
        s
    }

    /// Whether `k` is currently pressed.
    pub fn contains(&self, k: Key) -> (r: bool)
        ensures
            r == self@.contains(k),
    {
        let n = self.keys.len();
        let mut i: usize = 0;
        while i < n
            invariant
                i <= n,
                n == self.keys@.len(),
                forall|j: int| 0 <= j < i ==> self.keys@[j] != k,
            decreases n - i,
        {
            if self.keys[i] == k {
                assert(self.keys@.contains(k));
                return true;
            }
            i = i + 1;
        }
        assert(!self.keys@.contains(k));
        false
    }

    /// How many distinct keys are pressed.
    pub fn len(&self) -> (n: usize)
        requires
            self.wf(),
        ensures
            n == self@.len(),
    {
        proof {
            self.keys@.unique_seq_to_set();
        }
        self.keys.len()
    }

    /// Press `k`: adds it to the set; a no-op if it is already pressed.
    pub fn press(&mut self, k: Key)
        requires
            old(self).wf(),
        ensures
            final(self).wf(),
            final(self)@ == old(self)@.insert(k),
    {
        if !self.contains(k) {
            self.keys.push(k);
            proof {
                assert(self.keys@.drop_last() == old(self).keys@);
                assert forall|j: int| 0 <= j < self.keys@.len() - 1 implies self.keys@[j] != k
                by {
                    assert(old(self).keys@[j] == self.keys@[j]);
                    assert(old(self).keys@.contains(old(self).keys@[j]));
                }
                assert(self.keys@.to_set() =~= old(self)@.insert(k)) by {
                    assert forall|x: Key| self.keys@.contains(x) implies
                        old(self).keys@.contains(x) || x == k
                    by {
                        let j = choose|j: int|
                            0 <= j < self.keys@.len() && self.keys@[j] == x;
                        if j < self.keys@.len() - 1 {
                            assert(old(self).keys@[j] == x);
                        }
                    }
                    assert forall|x: Key| old(self).keys@.contains(x) implies
                        self.keys@.contains(x)
                    by {
                        let j = choose|j: int|
                            0 <= j < old(self).keys@.len() && old(self).keys@[j] == x;
                        assert(self.keys@[j] == x);
                    }
                    assert(self.keys@[self.keys@.len() - 1] == k);
                }
            }
        } else {
            proof {
                assert(self.keys@.to_set() =~= old(self)@.insert(k));
            }
        }
    }

    /// The pressed keys in the order they were first pressed; the set view
    /// is exactly this sequence's membership (`lemma_view_is_key_seq`).
    /// The camera folds over this order, as the frame loop reads it.
    pub closed spec fn key_seq(&self) -> Seq<Key> {
        self.keys@
    }

    /// The set view holds exactly the keys of the sequence view.
    pub proof fn lemma_view_is_key_seq(&self)
        ensures
            self@ == self.key_seq().to_set(),
    {
    }

    /// How many keys are pressed, as the length of the sequence view.
    pub fn key_count(&self) -> (n: usize)
        ensures
            n == self.key_seq().len(),
    {
        self.keys.len()
    }

    /// The `i`-th pressed key, in press order.
    pub fn key_at(&self, i: usize) -> (k: Key)
        requires
            (i as int) < self.key_seq().len(),
        ensures
            k == self.key_seq()[i as int],
    {
        self.keys[i]
    }

    /// Release `k`: removes it from the set; a no-op if it is not pressed.
    pub fn release(&mut self, k: Key)
        requires
            old(self).wf(),
        ensures
            final(self).wf(),
            final(self)@ == old(self)@.remove(k),
    {
        let n = self.keys.len();
        let mut i: usize = 0;
        while i < n
            invariant
                i <= n,
                n == self.keys@.len(),
                self.keys@ == old(self).keys@,
                self.wf(),
                forall|j: int| 0 <= j < i ==> self.keys@[j] != k,
            decreases n - i,
        {
            if self.keys[i] == k {
                let ghost pre = self.keys@;
                self.keys.remove(i);
                proof {
                    Self::lemma_remove_only_occurrence(pre, i as int, k);
                }
                return;
            }
            i = i + 1;
        }
        proof {
            assert(!self.keys@.contains(k));
            assert(self.keys@.to_set() =~= old(self)@.remove(k));
        }
    }

    /// Removing the only occurrence of `k` from a duplicate-free sequence
    /// removes `k` from the induced set and keeps every other element.
    proof fn lemma_remove_only_occurrence(s: Seq<Key>, i: int, k: Key)
        requires
            s.no_duplicates(),
            0 <= i < s.len(),
            s[i] == k,
        ensures
            s.remove(i).to_set() == s.to_set().remove(k),
            s.remove(i).no_duplicates(),
    {
        let r = s.remove(i);
        assert forall|x: Key| r.contains(x) implies s.to_set().remove(k).contains(x)
        by {
            let j = choose|j: int| 0 <= j < r.len() && r[j] == x;
            if j < i {
                assert(s[j] == x);
                assert(s[j] != s[i]);
            } else {
                assert(s[j + 1] == x);
                assert(s[j + 1] != s[i]);
            }
        }
        assert forall|x: Key| s.to_set().remove(k).contains(x) implies r.contains(x)
        by {
            let j = choose|j: int| 0 <= j < s.len() && s[j] == x;
            if j < i {
                assert(r[j] == x);
            } else {
                assert(j != i);
                assert(r[j - 1] == x);
            }
        }
        assert(r.to_set() =~= s.to_set().remove(k));
    }
}

/// The mouse-movement accumulator: the event thread adds each reported
/// delta, and the render thread reads and clears the sum once per frame.
/// The cleared value is the zero vector the accumulator was built with.
pub struct MouseDelta {
    acc: Vec2,
    zero: Vec2,
}

impl MouseDelta {
    /// The accumulated delta since it was last taken.
    pub closed spec fn acc(&self) -> Vec2 {
        self.acc
    }

    /// The value the accumulator resets to.
    pub closed spec fn reset_value(&self) -> Vec2 {
        self.zero
    }

    /// A fresh accumulator holding `zero`, which is also what `take` leaves
    /// behind; the caller passes the zero vector.
    pub fn new(zero: Vec2) -> (m: MouseDelta)
        ensures
            m.acc() == zero,
            m.reset_value() == zero,
    {
        let acc = clone2(&zero);
        MouseDelta { acc, zero }
    }

    /// Add one reported movement to the accumulator.
    pub fn accumulate(&mut self, d: &Vec2)
        ensures
            final(self).acc() == add2_of(old(self).acc(), *d),
            final(self).reset_value() == old(self).reset_value(),
    {
        self.acc = add2(&self.acc, d);
    }

    /// Read the accumulated delta and clear it.
    pub fn take(&mut self) -> (r: Vec2)
        ensures
            r == old(self).acc(),
            final(self).acc() == old(self).reset_value(),
            final(self).reset_value() == old(self).reset_value(),
    {
        let r = clone2(&self.acc);
        self.acc = clone2(&self.zero);
        r
    }
}

/// The shared input state: the pressed-key set, the mouse-delta
/// accumulator.  The event thread writes it as events arrive; the render
/// thread snapshots it once per frame.  The mutual-exclusion lock around it
/// belongs to the embedding program.
pub struct InputState {
    pub keys: KeySet,
    pub mouse: MouseDelta,
}

impl InputState {
    /// Fresh input state: no key pressed, no mouse movement accumulated;
    /// `zero` is the vector the mouse accumulator clears to.
    pub fn new(zero: Vec2) -> (s: InputState)
        ensures
            s.keys.wf(),
            s.keys@ == Set::<Key>::empty(),
            s.mouse.acc() == zero,
            s.mouse.reset_value() == zero,
    {
        InputState { keys: KeySet::new(), mouse: MouseDelta::new(zero) }
    }
}

/// Pressing a key that was not pressed and then releasing it leaves the
/// pressed-key set exactly as it was; in particular, starting from the empty
/// set it is empty again.  Stated over the views that `KeySet::press` and
/// `KeySet::release` ensure.
pub proof fn lemma_press_then_release(s: Set<Key>, k: Key)
    requires
        !s.contains(k),
    ensures
        s.insert(k).remove(k) == s,
{
    assert(s.insert(k).remove(k) =~= s);
}

/// Pressing the same key twice is the same as pressing it once: the set gains
/// at most one entry.  Stated over the view that `KeySet::press` ensures.
pub proof fn lemma_press_idempotent(s: Set<Key>, k: Key)
    ensures
        s.insert(k).insert(k) == s.insert(k),
        s.finite() && !s.contains(k) ==> s.insert(k).len() == s.len() + 1,
{
    assert(s.insert(k).insert(k) =~= s.insert(k));
}

} // verus!
