use vstd::prelude::*;

use crate::components::ComponentKind;
use crate::ecs::{Ecs, SENTINEL};
use crate::types::Reset;

verus! {

/// The state that alternates between frames: the world and the ids of the
/// entities the game keeps track of (`SENTINEL` while not spawned).
pub struct State {
    pub ecs: Ecs,
    pub zorb: usize,
    pub terrain: usize,
}

impl State {
    /// An empty world, tracking no entity.
    pub fn new() -> (r: State)
        ensures
            r.ecs.is_reset(),
            r.zorb == SENTINEL,
            r.terrain == SENTINEL,
    {
        let mut ecs = Ecs::new();
        ecs.reset();
        State { ecs, zorb: SENTINEL, terrain: SENTINEL }
    }

    /// A deep copy of this state.
    pub fn snapshot(&self) -> (r: State)
        requires
            self.ecs.wf(),
        ensures
            same_world(&r.ecs, &self.ecs),
            r.zorb == self.zorb,
            r.terrain == self.terrain,
    {
        State { ecs: self.ecs.snapshot(), zorb: self.zorb, terrain: self.terrain }
    }
}

/// `a` holds the same entities and components as `b`.
pub open spec fn same_world(a: &Ecs, b: &Ecs) -> bool {
    &&& a.wf()
    &&& a.num_entities() == b.num_entities()
    &&& a.pos_view() == b.pos_view()
    &&& a.follow_view() == b.follow_view()
    &&& a.debug_view() == b.debug_view()
    &&& a.sprite_anims_view().dom() == b.sprite_anims_view().dom()
    &&& forall|e: usize| #[trigger] b.sprite_anims_view().contains_key(e) ==> a.sprite_anims_view()[e]@
        == b.sprite_anims_view()[e]@
    &&& a.terrain_view().dom() == b.terrain_view().dom()
    &&& forall|e: usize| #[trigger] b.terrain_view().contains_key(e) ==> a.terrain_view()[e].tiles.cells()
        == b.terrain_view()[e].tiles.cells()
    &&& forall|k: ComponentKind| #[trigger] a.count(k) == b.count(k)
}

/// The two states of the frame loop: systems read `prev`, the state at the
/// start of the frame, and write `next`; at the end of the frame `next` is
/// copied into `prev`.
pub struct MemoryPool {
    pub prev: State,
    pub next: State,
}

impl MemoryPool {
    pub fn new() -> (r: MemoryPool)
        ensures
            r.prev.ecs.is_reset(),
            r.next.ecs.is_reset(),
    {
        MemoryPool { prev: State::new(), next: State::new() }
    }

    /// Ends a frame: `prev` becomes a deep copy of `next`.
    pub fn finish_frame(&mut self)
        requires
            old(self).next.ecs.wf(),
        ensures
            final(self).next == old(self).next,
            same_world(&final(self).prev.ecs, &final(self).next.ecs),
            final(self).prev.zorb == final(self).next.zorb,
            final(self).prev.terrain == final(self).next.terrain,
    {
        self.prev = self.next.snapshot();
    }
}

} // verus!
