//! The decisions of the animation's frame loop: which coordinate to draw on
//! a frame, and where the sprite heads once it has arrived.

use vstd::prelude::*;
use crate::target::{in_inset, random_target};
use crate::wanderer::{initial, step, widen, Wanderer};

verus! {

/// Where the sprite stands, where it heads, and the walk between them.
pub struct Scene {
    /// The point the current walk started from.
    pub position: (i32, i32),
    /// The point the current walk heads for.
    pub target: (i32, i32),
    /// The walk from `position` to `target`.
    pub wanderer: Wanderer,
}

/// The first position of the sprite.
pub const START: (i32, i32) = (16, 16);

impl Scene {
    /// Well-formedness: the walk is well formed and heads for a target at
    /// which the sprite is on screen.
    pub open spec fn wf(&self) -> bool {
        &&& self.wanderer.wf()
        &&& in_inset((self.target.0 as int, self.target.1 as int))
    }

    /// A scene whose sprite stands at `position` and heads for `target`.
    pub fn new(position: (i32, i32), target: (i32, i32)) -> (r: Scene)
        ensures
            r.position == position,
            r.target == target,
            r.wanderer@ == initial(
                position.0 as int,
                position.1 as int,
                target.0 as int,
                target.1 as int,
            ),
            r.wanderer.wf(),
    {
        Scene { position, target, wanderer: Wanderer::new(position.0, position.1, target.0, target.1) }
    }

    /// The first scene: the sprite stands in the top left corner of the
    /// inset rectangle and heads for a target drawn from `rng`.
    pub fn start(rng: &mut wyrand::WyRand) -> (r: Scene)
        ensures
            r.wf(),
            r.position == START,
            r.wanderer@ == initial(
                START.0 as int,
                START.1 as int,
                r.target.0 as int,
                r.target.1 as int,
            ),
    {
        let target = random_target(rng);
        Scene::new(START, target)
    }

    /// The sprite has arrived: it now stands at the old target and heads for
    /// `next_target` on a fresh walk.
    pub fn respawn(&mut self, next_target: (i32, i32))
        ensures
            final(self).position == old(self).target,
            final(self).target == next_target,
            final(self).wanderer@ == initial(
                old(self).target.0 as int,
                old(self).target.1 as int,
                next_target.0 as int,
                next_target.1 as int,
            ),
            final(self).wanderer.wf(),
    {
        *self = Scene::new(self.target, next_target);
    }

    /// One frame: the coordinate at which to draw the sprite, or `None` when
    /// the walk is over, in which case the sprite heads for a new target
    /// drawn from `rng` and nothing is drawn.
    pub fn frame(&mut self, rng: &mut wyrand::WyRand) -> (r: Option<(i32, i32)>)
        requires
            old(self).wf(),
        ensures
            final(self).wf(),
            widen(r) == step(old(self).wanderer@).1,
            r is Some ==> {
                &&& final(self).position == old(self).position
                &&& final(self).target == old(self).target
                &&& final(self).wanderer@ == step(old(self).wanderer@).0
            },
            r is None ==> {
                &&& final(self).position == old(self).target
                &&& final(self).wanderer@ == initial(
                    old(self).target.0 as int,
                    old(self).target.1 as int,
                    final(self).target.0 as int,
                    final(self).target.1 as int,
                )
            },
    {
        match self.wanderer.next() {
            Some(p) => Some(p),
            None => {
                let next_target = random_target(rng);
                self.respawn(next_target);
                None
            },
        }
    }
}

} // verus!
