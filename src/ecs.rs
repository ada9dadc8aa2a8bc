use vstd::prelude::*;

use crate::slices::copy_of;
use crate::types::Reset;
use crate::components::{
    ComponentKind, DebugFlags, Entity, Follow, Pos, SpriteAnims, Terrain,
};

verus! {

/// The slot index that means "no component", and the id of the null entity.
pub const SENTINEL: usize = 0;

/// The most entities in the world at a time, the null entity included.
pub const MAX_ENTITIES: usize = 8192;

/// The most `Follow` components at a time, the sentinel included.
pub const MAX_FOLLOW: usize = 64;

/// The most `Terrain` components at a time, the sentinel included.
pub const MAX_TERRAIN: usize = 2;

/// The slot of component type `k` in entity row `e`.
pub open spec fn slot(e: Entity, k: ComponentKind) -> usize {
    match k {
        ComponentKind::Pos => e.pos,
        ComponentKind::Follow => e.follow,
        ComponentKind::Debug => e.debug,
        ComponentKind::SpriteAnims => e.sprite_anims,
        ComponentKind::Terrain => e.terrain,
    }
}

/// The capacity of the storage of component type `k`, the sentinel included.
pub open spec fn capacity(k: ComponentKind) -> nat {
    match k {
        ComponentKind::Follow => MAX_FOLLOW as nat,
        ComponentKind::Terrain => MAX_TERRAIN as nat,
        _ => MAX_ENTITIES as nat,
    }
}

fn slot_of(e: &Entity, k: ComponentKind) -> (r: usize)
    ensures
        r == slot(*e, k),
{
    match k {
        ComponentKind::Pos => e.pos,
        ComponentKind::Follow => e.follow,
        ComponentKind::Debug => e.debug,
        ComponentKind::SpriteAnims => e.sprite_anims,
        ComponentKind::Terrain => e.terrain,
    }
}

/// `e` with the slot of `k` replaced by `v`.
fn with_slot(e: Entity, k: ComponentKind, v: usize) -> (r: Entity)
    ensures
        slot(r, k) == v,
        forall|k2: ComponentKind| k2 != k ==> #[trigger] slot(r, k2) == slot(e, k2),
{
    let mut r = e;
    match k {
        ComponentKind::Pos => r.pos = v,
        ComponentKind::Follow => r.follow = v,
        ComponentKind::Debug => r.debug = v,
        ComponentKind::SpriteAnims => r.sprite_anims = v,
        ComponentKind::Terrain => r.terrain = v,
    }
    r
}

/// The dense storage `store` of component type `k` and the entity rows point
/// at each other: index 0 of both is a sentinel, each stored pair names an
/// entity whose slot is that pair's index, and each non-zero slot names a
/// pair that belongs to its entity.
pub open spec fn store_wf<T>(ents: Seq<Entity>, store: Seq<(usize, T)>, k: ComponentKind) -> bool {
    &&& ents.len() >= 1
    &&& store.len() >= 1
    &&& slot(ents[0], k) == 0
    &&& forall|i: int|
        1 <= i < store.len() ==> 1 <= #[trigger] store[i].0 < ents.len() && slot(
            ents[store[i].0 as int],
            k,
        ) == i
    &&& forall|e: int|
        1 <= e < ents.len() ==> slot(#[trigger] ents[e], k) < store.len() && (slot(ents[e], k) != 0
            ==> store[slot(ents[e], k) as int].0 == e)
}

/// The components of type `k`, by entity.
pub open spec fn store_view<T>(ents: Seq<Entity>, store: Seq<(usize, T)>, k: ComponentKind) -> Map<
    usize,
    T,
> {
    Map::new(
        |e: usize| 1 <= e < ents.len() && slot(ents[e as int], k) != 0,
        |e: usize| store[slot(ents[e as int], k) as int].1,
    )
}

/// Entity rows that differ at most in the slot of `k`.
pub open spec fn rows_agree_except(a: Seq<Entity>, b: Seq<Entity>, k: ComponentKind) -> bool {
    &&& a.len() == b.len()
    &&& forall|i: int, k2: ComponentKind|
        0 <= i < a.len() && k2 != k ==> #[trigger] slot(a[i], k2) == #[trigger] slot(b[i], k2)
}

/// `r` lists each entry of `view` exactly once, as (entity, component).
pub open spec fn lists<T>(r: Seq<(usize, T)>, view: Map<usize, T>) -> bool {
    &&& forall|i: int|
        0 <= i < r.len() ==> view.contains_key(#[trigger] r[i].0) && view[r[i].0] == r[i].1
    &&& forall|i: int, j: int| 0 <= i < j < r.len() ==> #[trigger] r[i].0 != #[trigger] r[j].0
    &&& forall|e: usize| view.contains_key(e) ==> exists|i: int| 0 <= i < r.len() && #[trigger] r[i].0 == e
}

/// `r` lists each entity of `dom` exactly once.
pub open spec fn lists_ids(r: Seq<usize>, dom: Set<usize>) -> bool {
    &&& forall|i: int| 0 <= i < r.len() ==> dom.contains(#[trigger] r[i])
    &&& forall|i: int, j: int| 0 <= i < j < r.len() ==> #[trigger] r[i] != #[trigger] r[j]
    &&& forall|e: usize| dom.contains(e) ==> exists|i: int| 0 <= i < r.len() && #[trigger] r[i] == e
}

proof fn lemma_store_lists<T>(ents: Seq<Entity>, store: Seq<(usize, T)>, k: ComponentKind)
    requires
        store_wf(ents, store, k),
    ensures
        lists(store.subrange(1, store.len() as int), store_view(ents, store, k)),
{
    let r = store.subrange(1, store.len() as int);
    let v = store_view(ents, store, k);
    assert forall|i: int| 0 <= i < r.len() implies v.contains_key(#[trigger] r[i].0) && v[r[i].0]
        == r[i].1 by {
        assert(store[i + 1].0 == r[i].0);
    }
    assert forall|i: int, j: int| 0 <= i < j < r.len() implies #[trigger] r[i].0 != #[trigger] r[j].0 by {
        assert(store[i + 1].0 == r[i].0);
        assert(store[j + 1].0 == r[j].0);
    }
    assert forall|e: usize| v.contains_key(e) implies exists|i: int|
        0 <= i < r.len() && #[trigger] r[i].0 == e by {
        let s = slot(ents[e as int], k) as int;
        assert(r[s - 1].0 == e);
    }
}

proof fn lemma_lists_ids<T>(s: Seq<(usize, T)>, r: Seq<usize>, view: Map<usize, T>)
    requires
        lists(s, view),
        r.len() == s.len(),
        forall|j: int| 0 <= j < r.len() ==> r[j] == #[trigger] s[j].0,
    ensures
        lists_ids(r, view.dom()),
{
    assert forall|i: int| 0 <= i < r.len() implies view.dom().contains(#[trigger] r[i]) by {
        assert(r[i] == s[i].0);
    }
    assert forall|i: int, j: int| 0 <= i < j < r.len() implies #[trigger] r[i] != #[trigger] r[j] by {
        assert(r[i] == s[i].0);
        assert(r[j] == s[j].0);
    }
    assert forall|e: usize| view.dom().contains(e) implies exists|i: int|
        0 <= i < r.len() && #[trigger] r[i] == e by {
        assert(view.contains_key(e));
        let i = choose|i: int| 0 <= i < s.len() && #[trigger] s[i].0 == e;
        assert(r[i] == e);
    }
}

fn get_copy<T: Copy>(ents: &Vec<Entity>, store: &Vec<(usize, T)>, k: ComponentKind, e: usize) -> (r:
    Option<T>)
    requires
        store_wf(ents@, store@, k),
        1 <= e < ents@.len(),
    ensures
        r == store_view(ents@, store@, k).get(e),
{
    let idx = slot_of(&ents[e], k);
    if idx == SENTINEL {
        None
    } else {
        Some(store[idx].1)
    }
}

fn get_ref<'a, T>(ents: &Vec<Entity>, store: &'a Vec<(usize, T)>, k: ComponentKind, e: usize) -> (r:
    Option<&'a T>)
    requires
        store_wf(ents@, store@, k),
        1 <= e < ents@.len(),
    ensures
        r matches Some(v) ==> store_view(ents@, store@, k).contains_key(e) && *v == store_view(
            ents@,
            store@,
            k,
        )[e],
        r is None ==> !store_view(ents@, store@, k).contains_key(e),
{
    let idx = slot_of(&ents[e], k);
    if idx == SENTINEL {
        None
    } else {
        Some(&store[idx].1)
    }
}

fn set_in<T>(ents: &Vec<Entity>, store: &mut Vec<(usize, T)>, k: ComponentKind, e: usize, v: T)
    requires
        store_wf(ents@, old(store)@, k),
        store_view(ents@, old(store)@, k).contains_key(e),
    ensures
        store_wf(ents@, final(store)@, k),
        final(store)@.len() == old(store)@.len(),
        store_view(ents@, final(store)@, k) == store_view(ents@, old(store)@, k).insert(e, v),
{
    let idx = slot_of(&ents[e], k);
    store.set(idx, (e, v));
    assert(store_view(ents@, store@, k) =~= store_view(ents@, old(store)@, k).insert(e, v));
}

/// Attaches `v` to `e`, which has no component of type `k`.
fn push_in<T>(ents: &mut Vec<Entity>, store: &mut Vec<(usize, T)>, k: ComponentKind, e: usize, v: T)
    requires
        store_wf(old(ents)@, old(store)@, k),
        1 <= e < old(ents)@.len(),
        !store_view(old(ents)@, old(store)@, k).contains_key(e),
        old(store)@.len() < usize::MAX,
    ensures
        store_wf(final(ents)@, final(store)@, k),
        rows_agree_except(old(ents)@, final(ents)@, k),
        final(store)@.len() == old(store)@.len() + 1,
        store_view(final(ents)@, final(store)@, k) == store_view(old(ents)@, old(store)@, k).insert(
            e,
            v,
        ),
{
    let i = store.len();
    store.push((e, v));
    let row = with_slot(ents[e], k, i);
    ents.set(e, row);
    assert(store_view(ents@, store@, k) =~= store_view(old(ents)@, old(store)@, k).insert(e, v));
}

/// Detaches the component of type `k` from `e`: the last pair moves into the
/// freed index and its entity's slot follows it.
fn unset_in<T>(ents: &mut Vec<Entity>, store: &mut Vec<(usize, T)>, k: ComponentKind, e: usize) -> (r:
    T)
    requires
        store_wf(old(ents)@, old(store)@, k),
        store_view(old(ents)@, old(store)@, k).contains_key(e),
    ensures
        store_wf(final(ents)@, final(store)@, k),
        rows_agree_except(old(ents)@, final(ents)@, k),
        final(store)@.len() == old(store)@.len() - 1,
        r == store_view(old(ents)@, old(store)@, k)[e],
        store_view(final(ents)@, final(store)@, k) == store_view(old(ents)@, old(store)@, k).remove(
            e,
        ),
{
    let idx = slot_of(&ents[e], k);
    let row = with_slot(ents[e], k, SENTINEL);
    ents.set(e, row);
    let (_owner, removed) = store.swap_remove(idx);
    if idx < store.len() {
        let swapped = store[idx].0;
        let row2 = with_slot(ents[swapped], k, idx);
        ents.set(swapped, row2);
    }
    assert(store_view(ents@, store@, k) =~= store_view(old(ents)@, old(store)@, k).remove(e));
    removed
}

proof fn lemma_rows_agree<T>(a: Seq<Entity>, b: Seq<Entity>, s: Seq<(usize, T)>, k: ComponentKind, k2: ComponentKind)
    requires
        rows_agree_except(a, b, k),
        k2 != k,
        store_wf(a, s, k2),
    ensures
        store_wf(b, s, k2),
        store_view(b, s, k2) == store_view(a, s, k2),
{
    assert forall|i: int| 0 <= i < a.len() implies slot(#[trigger] b[i], k2) == slot(a[i], k2) by {
        assert(slot(a[i], k2) == slot(b[i], k2));
    }
    assert(store_view(b, s, k2) =~= store_view(a, s, k2));
}

impl Ecs {
    /// After the entity rows changed only in the slots of `k`, every other
    /// storage still agrees with them, and its components are unchanged.
    proof fn lemma_rows_changed(&self, old_ents: Seq<Entity>, k: ComponentKind)
        requires
            rows_agree_except(old_ents, self.entities@, k),
            k != ComponentKind::Pos ==> store_wf(old_ents, self.pos@, ComponentKind::Pos),
            k != ComponentKind::Follow ==> store_wf(old_ents, self.follow@, ComponentKind::Follow),
            k != ComponentKind::Debug ==> store_wf(old_ents, self.debug@, ComponentKind::Debug),
            k != ComponentKind::SpriteAnims ==> store_wf(old_ents, self.sprite_anims@, ComponentKind::SpriteAnims),
            k != ComponentKind::Terrain ==> store_wf(old_ents, self.terrain@, ComponentKind::Terrain),
        ensures
            k != ComponentKind::Pos ==> store_wf(self.entities@, self.pos@, ComponentKind::Pos) && store_view(self.entities@, self.pos@, ComponentKind::Pos) == store_view(old_ents, self.pos@, ComponentKind::Pos),
            k != ComponentKind::Follow ==> store_wf(self.entities@, self.follow@, ComponentKind::Follow) && store_view(self.entities@, self.follow@, ComponentKind::Follow) == store_view(old_ents, self.follow@, ComponentKind::Follow),
            k != ComponentKind::Debug ==> store_wf(self.entities@, self.debug@, ComponentKind::Debug) && store_view(self.entities@, self.debug@, ComponentKind::Debug) == store_view(old_ents, self.debug@, ComponentKind::Debug),
            k != ComponentKind::SpriteAnims ==> store_wf(self.entities@, self.sprite_anims@, ComponentKind::SpriteAnims) && store_view(self.entities@, self.sprite_anims@, ComponentKind::SpriteAnims) == store_view(old_ents, self.sprite_anims@, ComponentKind::SpriteAnims),
            k != ComponentKind::Terrain ==> store_wf(self.entities@, self.terrain@, ComponentKind::Terrain) && store_view(self.entities@, self.terrain@, ComponentKind::Terrain) == store_view(old_ents, self.terrain@, ComponentKind::Terrain),
    {
        if k != ComponentKind::Pos { lemma_rows_agree(old_ents, self.entities@, self.pos@, k, ComponentKind::Pos); }
        if k != ComponentKind::Follow { lemma_rows_agree(old_ents, self.entities@, self.follow@, k, ComponentKind::Follow); }
        if k != ComponentKind::Debug { lemma_rows_agree(old_ents, self.entities@, self.debug@, k, ComponentKind::Debug); }
        if k != ComponentKind::SpriteAnims { lemma_rows_agree(old_ents, self.entities@, self.sprite_anims@, k, ComponentKind::SpriteAnims); }
        if k != ComponentKind::Terrain { lemma_rows_agree(old_ents, self.entities@, self.terrain@, k, ComponentKind::Terrain); }
    }
}

/// All entities and their components.
///
/// Index 0 of the entity rows is the null entity, which is never part of the
/// world; index 0 of each component storage is an unused sentinel, so that a
/// slot of 0 in an entity row means "no component of this type".
pub struct Ecs {
    entities: Vec<Entity>,
    pos: Vec<(usize, Pos)>,
    follow: Vec<(usize, Follow)>,
    debug: Vec<(usize, DebugFlags)>,
    sprite_anims: Vec<(usize, SpriteAnims)>,
    terrain: Vec<(usize, Terrain)>,
}

impl Ecs {
    /// The entity rows and every component storage agree, within their
    /// capacities.
    pub closed spec fn wf(&self) -> bool {
        &&& 1 <= self.entities@.len() <= MAX_ENTITIES
        &&& store_wf(self.entities@, self.pos@, ComponentKind::Pos)
        &&& self.pos@.len() <= capacity(ComponentKind::Pos)
        &&& store_wf(self.entities@, self.follow@, ComponentKind::Follow)
        &&& self.follow@.len() <= capacity(ComponentKind::Follow)
        &&& store_wf(self.entities@, self.debug@, ComponentKind::Debug)
        &&& self.debug@.len() <= capacity(ComponentKind::Debug)
        &&& store_wf(self.entities@, self.sprite_anims@, ComponentKind::SpriteAnims)
        &&& self.sprite_anims@.len() <= capacity(ComponentKind::SpriteAnims)
        &&& store_wf(self.entities@, self.terrain@, ComponentKind::Terrain)
        &&& self.terrain@.len() <= capacity(ComponentKind::Terrain)
    }

    /// The number of entity rows, the null entity included.
    pub closed spec fn num_entities(&self) -> nat {
        self.entities@.len()
    }

    /// The slot of component type `k` in the row of entity `e`.
    pub closed spec fn slot(&self, e: usize, k: ComponentKind) -> usize {
        slot(self.entities@[e as int], k)
    }

    /// The number of components of type `k` attached to entities.
    pub closed spec fn count(&self, k: ComponentKind) -> nat {
        match k {
            ComponentKind::Pos => (self.pos@.len() - 1) as nat,
            ComponentKind::Follow => (self.follow@.len() - 1) as nat,
            ComponentKind::Debug => (self.debug@.len() - 1) as nat,
            ComponentKind::SpriteAnims => (self.sprite_anims@.len() - 1) as nat,
            ComponentKind::Terrain => (self.terrain@.len() - 1) as nat,
        }
    }

    /// Whether one more component of type `k` fits.
    pub open spec fn has_room(&self, k: ComponentKind) -> bool {
        self.count(k) + 1 < capacity(k)
    }

    /// The entities that have a component of type `k`.
    pub open spec fn dom(&self, k: ComponentKind) -> Set<usize> {
        match k {
            ComponentKind::Pos => self.pos_view().dom(),
            ComponentKind::Follow => self.follow_view().dom(),
            ComponentKind::Debug => self.debug_view().dom(),
            ComponentKind::SpriteAnims => self.sprite_anims_view().dom(),
            ComponentKind::Terrain => self.terrain_view().dom(),
        }
    }

    /// The two worlds hold the same entities and the same components, except
    /// perhaps those of type `k`.
    pub open spec fn agree_except(&self, other: &Ecs, k: ComponentKind) -> bool {
        &&& self.num_entities() == other.num_entities()
        &&& k != ComponentKind::Pos ==> self.pos_view() == other.pos_view() && self.count(ComponentKind::Pos) == other.count(ComponentKind::Pos)
        &&& k != ComponentKind::Follow ==> self.follow_view() == other.follow_view() && self.count(ComponentKind::Follow) == other.count(ComponentKind::Follow)
        &&& k != ComponentKind::Debug ==> self.debug_view() == other.debug_view() && self.count(ComponentKind::Debug) == other.count(ComponentKind::Debug)
        &&& k != ComponentKind::SpriteAnims ==> self.sprite_anims_view() == other.sprite_anims_view() && self.count(ComponentKind::SpriteAnims) == other.count(ComponentKind::SpriteAnims)
        &&& k != ComponentKind::Terrain ==> self.terrain_view() == other.terrain_view() && self.count(ComponentKind::Terrain) == other.count(ComponentKind::Terrain)
    }

    /// The `Pos` components, by entity.
    pub closed spec fn pos_view(&self) -> Map<usize, Pos> {
        store_view(self.entities@, self.pos@, ComponentKind::Pos)
    }

    /// The `Follow` components, by entity.
    pub closed spec fn follow_view(&self) -> Map<usize, Follow> {
        store_view(self.entities@, self.follow@, ComponentKind::Follow)
    }

    /// The `DebugFlags` components, by entity.
    pub closed spec fn debug_view(&self) -> Map<usize, DebugFlags> {
        store_view(self.entities@, self.debug@, ComponentKind::Debug)
    }

    /// The `SpriteAnims` components, by entity.
    pub closed spec fn sprite_anims_view(&self) -> Map<usize, SpriteAnims> {
        store_view(self.entities@, self.sprite_anims@, ComponentKind::SpriteAnims)
    }

    /// The `Terrain` components, by entity.
    pub closed spec fn terrain_view(&self) -> Map<usize, Terrain> {
        store_view(self.entities@, self.terrain@, ComponentKind::Terrain)
    }

    /// A world with the null entity alone.
    pub fn new() -> (r: Ecs)
        ensures
            r.wf(),
            r.num_entities() == 1,
            r.pos_view().is_empty(),
            r.count(ComponentKind::Pos) == 0,
            r.follow_view().is_empty(),
            r.count(ComponentKind::Follow) == 0,
            r.debug_view().is_empty(),
            r.count(ComponentKind::Debug) == 0,
            r.sprite_anims_view().is_empty(),
            r.count(ComponentKind::SpriteAnims) == 0,
            r.terrain_view().is_empty(),
            r.count(ComponentKind::Terrain) == 0,
    {
        let mut entities: Vec<Entity> = Vec::new();
        entities.push(Entity::empty());
        let mut pos: Vec<(usize, Pos)> = Vec::new();
        pos.push((SENTINEL, Pos::origin()));
        let mut follow: Vec<(usize, Follow)> = Vec::new();
        follow.push((SENTINEL, Follow { stop_after_arriving: false, target_entity: SENTINEL }));
        let mut debug: Vec<(usize, DebugFlags)> = Vec::new();
        debug.push((SENTINEL, DebugFlags { box_color: None }));
        let mut sprite_anims: Vec<(usize, SpriteAnims)> = Vec::new();
        sprite_anims.push((SENTINEL, Vec::new()));
        let mut terrain: Vec<(usize, Terrain)> = Vec::new();
        terrain.push((SENTINEL, Terrain::empty()));
        let r = Ecs { entities, pos, follow, debug, sprite_anims, terrain };
        assert(r.pos_view() =~= Map::empty());
        assert(r.follow_view() =~= Map::empty());
        assert(r.debug_view() =~= Map::empty());
        assert(r.sprite_anims_view() =~= Map::empty());
        assert(r.terrain_view() =~= Map::empty());
        r
    }

    /// The number of entity rows, the null entity included.
    pub fn num_entities_exec(&self) -> (r: usize)
        ensures
            r == self.num_entities(),
    {
        self.entities.len()
    }

    /// The number of components of type `k` attached to entities.
    pub fn count_of(&self, k: ComponentKind) -> (r: usize)
        requires
            self.wf(),
        ensures
            r == self.count(k),
    {
        match k {
            ComponentKind::Pos => self.pos.len() - 1,
            ComponentKind::Follow => self.follow.len() - 1,
            ComponentKind::Debug => self.debug.len() - 1,
            ComponentKind::SpriteAnims => self.sprite_anims.len() - 1,
            ComponentKind::Terrain => self.terrain.len() - 1,
        }
    }

    /// Whether one more component of type `k` fits.
    pub fn room_for(&self, k: ComponentKind) -> (r: bool)
        requires
            self.wf(),
        ensures
            r == self.has_room(k),
    {
        match k {
            ComponentKind::Pos => self.pos.len() < MAX_ENTITIES,
            ComponentKind::Follow => self.follow.len() < MAX_FOLLOW,
            ComponentKind::Debug => self.debug.len() < MAX_ENTITIES,
            ComponentKind::SpriteAnims => self.sprite_anims.len() < MAX_ENTITIES,
            ComponentKind::Terrain => self.terrain.len() < MAX_TERRAIN,
        }
    }

    /// The `Pos` of `entity_id`, if it has one.
    pub fn pos_for(&self, entity_id: usize) -> (r: Option<Pos>)
        requires
            self.wf(),
            1 <= entity_id < self.num_entities(),
        ensures
            r == self.pos_view().get(entity_id),
    {
        get_copy(&self.entities, &self.pos, ComponentKind::Pos, entity_id)
    }

    /// The `Pos` of `entity_id`, which has one.
    pub fn pos_for_unchecked(&self, entity_id: usize) -> (r: Pos)
        requires
            self.wf(),
            self.pos_view().contains_key(entity_id),
        ensures
            r == self.pos_view()[entity_id],
    {
        let idx = self.entities[entity_id].pos;
        self.pos[idx].1
    }

    /// Each entity with a `Pos`, once, with its component, in storage order.
    pub fn pos_iter(&self) -> (r: Vec<(usize, Pos)>)
        requires
            self.wf(),
        ensures
            lists(r@, self.pos_view()),
            r@ == self.pos_items(),
            r@.len() == self.count(ComponentKind::Pos),
    {
        proof {
            lemma_store_lists(self.entities@, self.pos@, ComponentKind::Pos);
        }
        let mut r: Vec<(usize, Pos)> = Vec::new();
        let mut i: usize = 1;
        while i < self.pos.len()
            invariant
                1 <= i <= self.pos@.len(),
                r@ == self.pos@.subrange(1, i as int),
            decreases self.pos@.len() - i,
        {
            r.push(self.pos[i]);
            i = i + 1;
            assert(r@ =~= self.pos@.subrange(1, i as int));
        }
        assert(r@ =~= self.pos@.subrange(1, self.pos@.len() as int));
        r
    }

    /// Replaces the `Pos` of `entity_id`, which has one.
    pub fn set_pos_for(&mut self, entity_id: usize, val: Pos)
        requires
            old(self).wf(),
            old(self).pos_view().contains_key(entity_id),
        ensures
            final(self).wf(),
            final(self).agree_except(old(self), ComponentKind::Pos),
            final(self).count(ComponentKind::Pos) == old(self).count(ComponentKind::Pos),
            final(self).pos_view() == old(self).pos_view().insert(entity_id, val),
    {
        set_in(&self.entities, &mut self.pos, ComponentKind::Pos, entity_id, val);
    }

    /// Detaches the `Pos` of `entity_id`, which has one, and returns it.
    pub fn unset_pos_for(&mut self, entity_id: usize) -> (r: Pos)
        requires
            old(self).wf(),
            old(self).pos_view().contains_key(entity_id),
        ensures
            final(self).wf(),
            final(self).agree_except(old(self), ComponentKind::Pos),
            final(self).count(ComponentKind::Pos) + 1 == old(self).count(ComponentKind::Pos),
            r == old(self).pos_view()[entity_id],
            final(self).pos_view() == old(self).pos_view().remove(entity_id),
    {
        let ghost old_ents = self.entities@;
        let r = unset_in(&mut self.entities, &mut self.pos, ComponentKind::Pos, entity_id);
        proof {
            self.lemma_rows_changed(old_ents, ComponentKind::Pos);
        }
        r
    }

    /// Gives `entity_id` the `Pos` `val`, replacing the one it has, if any.
    pub fn overwrite_pos_for(&mut self, entity_id: usize, val: Pos)
        requires
            old(self).wf(),
            1 <= entity_id < old(self).num_entities(),
            old(self).pos_view().contains_key(entity_id) || old(self).has_room(ComponentKind::Pos),
        ensures
            final(self).wf(),
            final(self).agree_except(old(self), ComponentKind::Pos),
            final(self).pos_view() == old(self).pos_view().insert(entity_id, val),
            final(self).count(ComponentKind::Pos) == old(self).count(ComponentKind::Pos) + if old(self).pos_view().contains_key(entity_id) { 0int } else { 1 },
    {
        let idx = self.entities[entity_id].pos;
        if idx == SENTINEL {
            let ghost old_ents = self.entities@;
            push_in(&mut self.entities, &mut self.pos, ComponentKind::Pos, entity_id, val);
            proof {
                self.lemma_rows_changed(old_ents, ComponentKind::Pos);
            }
        } else {
            set_in(&self.entities, &mut self.pos, ComponentKind::Pos, entity_id, val);
        }
    }

    /// The `Follow` of `entity_id`, if it has one.
    pub fn follow_for(&self, entity_id: usize) -> (r: Option<Follow>)
        requires
            self.wf(),
            1 <= entity_id < self.num_entities(),
        ensures
            r == self.follow_view().get(entity_id),
    {
        get_copy(&self.entities, &self.follow, ComponentKind::Follow, entity_id)
    }

    /// The `Follow` of `entity_id`, which has one.
    pub fn follow_for_unchecked(&self, entity_id: usize) -> (r: Follow)
        requires
            self.wf(),
            self.follow_view().contains_key(entity_id),
        ensures
            r == self.follow_view()[entity_id],
    {
        let idx = self.entities[entity_id].follow;
        self.follow[idx].1
    }

    /// Each entity with a `Follow`, once, with its component, in storage order.
    pub fn follow_iter(&self) -> (r: Vec<(usize, Follow)>)
        requires
            self.wf(),
        ensures
            lists(r@, self.follow_view()),
            r@.len() == self.count(ComponentKind::Follow),
    {
        proof {
            lemma_store_lists(self.entities@, self.follow@, ComponentKind::Follow);
        }
        let mut r: Vec<(usize, Follow)> = Vec::new();
        let mut i: usize = 1;
        while i < self.follow.len()
            invariant
                1 <= i <= self.follow@.len(),
                r@ == self.follow@.subrange(1, i as int),
            decreases self.follow@.len() - i,
        {
            r.push(self.follow[i]);
            i = i + 1;
            assert(r@ =~= self.follow@.subrange(1, i as int));
        }
        assert(r@ =~= self.follow@.subrange(1, self.follow@.len() as int));
        r
    }

    /// Replaces the `Follow` of `entity_id`, which has one.
    pub fn set_follow_for(&mut self, entity_id: usize, val: Follow)
        requires
            old(self).wf(),
            old(self).follow_view().contains_key(entity_id),
        ensures
            final(self).wf(),
            final(self).agree_except(old(self), ComponentKind::Follow),
            final(self).count(ComponentKind::Follow) == old(self).count(ComponentKind::Follow),
            final(self).follow_view() == old(self).follow_view().insert(entity_id, val),
    {
        set_in(&self.entities, &mut self.follow, ComponentKind::Follow, entity_id, val);
    }

    /// Detaches the `Follow` of `entity_id`, which has one, and returns it.
    pub fn unset_follow_for(&mut self, entity_id: usize) -> (r: Follow)
        requires
            old(self).wf(),
            old(self).follow_view().contains_key(entity_id),
        ensures
            final(self).wf(),
            final(self).agree_except(old(self), ComponentKind::Follow),
            final(self).count(ComponentKind::Follow) + 1 == old(self).count(ComponentKind::Follow),
            r == old(self).follow_view()[entity_id],
            final(self).follow_view() == old(self).follow_view().remove(entity_id),
    {
        let ghost old_ents = self.entities@;
        let r = unset_in(&mut self.entities, &mut self.follow, ComponentKind::Follow, entity_id);
        proof {
            self.lemma_rows_changed(old_ents, ComponentKind::Follow);
        }
        r
    }

    /// Gives `entity_id` the `Follow` `val`, replacing the one it has, if any.
    pub fn overwrite_follow_for(&mut self, entity_id: usize, val: Follow)
        requires
            old(self).wf(),
            1 <= entity_id < old(self).num_entities(),
            old(self).follow_view().contains_key(entity_id) || old(self).has_room(ComponentKind::Follow),
        ensures
            final(self).wf(),
            final(self).agree_except(old(self), ComponentKind::Follow),
            final(self).follow_view() == old(self).follow_view().insert(entity_id, val),
            final(self).count(ComponentKind::Follow) == old(self).count(ComponentKind::Follow) + if old(self).follow_view().contains_key(entity_id) { 0int } else { 1 },
    {
        let idx = self.entities[entity_id].follow;
        if idx == SENTINEL {
            let ghost old_ents = self.entities@;
            push_in(&mut self.entities, &mut self.follow, ComponentKind::Follow, entity_id, val);
            proof {
                self.lemma_rows_changed(old_ents, ComponentKind::Follow);
            }
        } else {
            set_in(&self.entities, &mut self.follow, ComponentKind::Follow, entity_id, val);
        }
    }

    /// The `DebugFlags` of `entity_id`, if it has one.
    pub fn debug_for(&self, entity_id: usize) -> (r: Option<DebugFlags>)
        requires
            self.wf(),
            1 <= entity_id < self.num_entities(),
        ensures
            r == self.debug_view().get(entity_id),
    {
        get_copy(&self.entities, &self.debug, ComponentKind::Debug, entity_id)
    }

    /// The `DebugFlags` of `entity_id`, which has one.
    pub fn debug_for_unchecked(&self, entity_id: usize) -> (r: DebugFlags)
        requires
            self.wf(),
            self.debug_view().contains_key(entity_id),
        ensures
            r == self.debug_view()[entity_id],
    {
        let idx = self.entities[entity_id].debug;
        self.debug[idx].1
    }

    /// Each entity with a `DebugFlags`, once, with its component, in storage order.
    pub fn debug_iter(&self) -> (r: Vec<(usize, DebugFlags)>)
        requires
            self.wf(),
        ensures
            lists(r@, self.debug_view()),
            r@.len() == self.count(ComponentKind::Debug),
    {
        proof {
            lemma_store_lists(self.entities@, self.debug@, ComponentKind::Debug);
        }
        let mut r: Vec<(usize, DebugFlags)> = Vec::new();
        let mut i: usize = 1;
        while i < self.debug.len()
            invariant
                1 <= i <= self.debug@.len(),
                r@ == self.debug@.subrange(1, i as int),
            decreases self.debug@.len() - i,
        {
            r.push(self.debug[i]);
            i = i + 1;
            assert(r@ =~= self.debug@.subrange(1, i as int));
        }
        assert(r@ =~= self.debug@.subrange(1, self.debug@.len() as int));
        r
    }

    /// Replaces the `DebugFlags` of `entity_id`, which has one.
    pub fn set_debug_for(&mut self, entity_id: usize, val: DebugFlags)
        requires
            old(self).wf(),
            old(self).debug_view().contains_key(entity_id),
        ensures
            final(self).wf(),
            final(self).agree_except(old(self), ComponentKind::Debug),
            final(self).count(ComponentKind::Debug) == old(self).count(ComponentKind::Debug),
            final(self).debug_view() == old(self).debug_view().insert(entity_id, val),
    {
        set_in(&self.entities, &mut self.debug, ComponentKind::Debug, entity_id, val);
    }

    /// Detaches the `DebugFlags` of `entity_id`, which has one, and returns it.
    pub fn unset_debug_for(&mut self, entity_id: usize) -> (r: DebugFlags)
        requires
            old(self).wf(),
            old(self).debug_view().contains_key(entity_id),
        ensures
            final(self).wf(),
            final(self).agree_except(old(self), ComponentKind::Debug),
            final(self).count(ComponentKind::Debug) + 1 == old(self).count(ComponentKind::Debug),
            r == old(self).debug_view()[entity_id],
            final(self).debug_view() == old(self).debug_view().remove(entity_id),
    {
        let ghost old_ents = self.entities@;
        let r = unset_in(&mut self.entities, &mut self.debug, ComponentKind::Debug, entity_id);
        proof {
            self.lemma_rows_changed(old_ents, ComponentKind::Debug);
        }
        r
    }

    /// Gives `entity_id` the `DebugFlags` `val`, replacing the one it has, if any.
    pub fn overwrite_debug_for(&mut self, entity_id: usize, val: DebugFlags)
        requires
            old(self).wf(),
            1 <= entity_id < old(self).num_entities(),
            old(self).debug_view().contains_key(entity_id) || old(self).has_room(ComponentKind::Debug),
        ensures
            final(self).wf(),
            final(self).agree_except(old(self), ComponentKind::Debug),
            final(self).debug_view() == old(self).debug_view().insert(entity_id, val),
            final(self).count(ComponentKind::Debug) == old(self).count(ComponentKind::Debug) + if old(self).debug_view().contains_key(entity_id) { 0int } else { 1 },
    {
        let idx = self.entities[entity_id].debug;
        if idx == SENTINEL {
            let ghost old_ents = self.entities@;
            push_in(&mut self.entities, &mut self.debug, ComponentKind::Debug, entity_id, val);
            proof {
                self.lemma_rows_changed(old_ents, ComponentKind::Debug);
            }
        } else {
            set_in(&self.entities, &mut self.debug, ComponentKind::Debug, entity_id, val);
        }
    }

    /// The `SpriteAnims` of `entity_id`, if it has one.
    pub fn sprite_anims_for(&self, entity_id: usize) -> (r: Option<&SpriteAnims>)
        requires
            self.wf(),
            1 <= entity_id < self.num_entities(),
        ensures
            r matches Some(v) ==> self.sprite_anims_view().contains_key(entity_id) && *v == self.sprite_anims_view()[entity_id],
            r is None ==> !self.sprite_anims_view().contains_key(entity_id),
    {
        get_ref(&self.entities, &self.sprite_anims, ComponentKind::SpriteAnims, entity_id)
    }

    /// The `SpriteAnims` of `entity_id`, which has one.
    pub fn sprite_anims_for_unchecked(&self, entity_id: usize) -> (r: &SpriteAnims)
        requires
            self.wf(),
            self.sprite_anims_view().contains_key(entity_id),
        ensures
            *r == self.sprite_anims_view()[entity_id],
    {
        let idx = self.entities[entity_id].sprite_anims;
        &self.sprite_anims[idx].1
    }

    /// The entities with a `Pos` and their positions, in storage order.
    pub closed spec fn pos_items(&self) -> Seq<(usize, Pos)> {
        self.pos@.subrange(1, self.pos@.len() as int)
    }

    /// The entities with a `Terrain`, in storage order.
    pub closed spec fn terrain_order(&self) -> Seq<usize> {
        self.terrain@.subrange(1, self.terrain@.len() as int).map_values(|p: (usize, Terrain)| p.0)
    }

    /// The entities with a `SpriteAnims`, in storage order.
    pub closed spec fn sprite_anims_order(&self) -> Seq<usize> {
        self.sprite_anims@.subrange(1, self.sprite_anims@.len() as int).map_values(
            |p: (usize, SpriteAnims)| p.0,
        )
    }

    /// Each entity with a `SpriteAnims`, once, in storage order.
    pub fn sprite_anims_iter(&self) -> (r: Vec<usize>)
        requires
            self.wf(),
        ensures
            lists_ids(r@, self.sprite_anims_view().dom()),
            r@ == self.sprite_anims_order(),
            r@.len() == self.count(ComponentKind::SpriteAnims),
    {
        proof {
            lemma_store_lists(self.entities@, self.sprite_anims@, ComponentKind::SpriteAnims);
        }
        let mut r: Vec<usize> = Vec::new();
        let mut i: usize = 1;
        while i < self.sprite_anims.len()
            invariant
                1 <= i <= self.sprite_anims@.len(),
                r@.len() == i - 1,
                forall|j: int| 0 <= j < i - 1 ==> r@[j] == #[trigger] self.sprite_anims@[j + 1].0,
            decreases self.sprite_anims@.len() - i,
        {
            r.push(self.sprite_anims[i].0);
            i = i + 1;
        }
        proof {
            let s = self.sprite_anims@.subrange(1, self.sprite_anims@.len() as int);
            assert forall|j: int| 0 <= j < r@.len() implies r@[j] == #[trigger] s[j].0 by {
                assert(self.sprite_anims@[j + 1].0 == r@[j]);
            }
            lemma_lists_ids(s, r@, self.sprite_anims_view());
            assert(r@ =~= self.sprite_anims_order());
        }
        r
    }

    /// Replaces the `SpriteAnims` of `entity_id`, which has one.
    pub fn set_sprite_anims_for(&mut self, entity_id: usize, val: SpriteAnims)
        requires
            old(self).wf(),
            old(self).sprite_anims_view().contains_key(entity_id),
        ensures
            final(self).wf(),
            final(self).agree_except(old(self), ComponentKind::SpriteAnims),
            final(self).count(ComponentKind::SpriteAnims) == old(self).count(ComponentKind::SpriteAnims),
            final(self).sprite_anims_view() == old(self).sprite_anims_view().insert(entity_id, val),
    {
        set_in(&self.entities, &mut self.sprite_anims, ComponentKind::SpriteAnims, entity_id, val);
    }

    /// Detaches the `SpriteAnims` of `entity_id`, which has one, and returns it.
    pub fn unset_sprite_anims_for(&mut self, entity_id: usize) -> (r: SpriteAnims)
        requires
            old(self).wf(),
            old(self).sprite_anims_view().contains_key(entity_id),
        ensures
            final(self).wf(),
            final(self).agree_except(old(self), ComponentKind::SpriteAnims),
            final(self).count(ComponentKind::SpriteAnims) + 1 == old(self).count(ComponentKind::SpriteAnims),
            r == old(self).sprite_anims_view()[entity_id],
            final(self).sprite_anims_view() == old(self).sprite_anims_view().remove(entity_id),
    {
        let ghost old_ents = self.entities@;
        let r = unset_in(&mut self.entities, &mut self.sprite_anims, ComponentKind::SpriteAnims, entity_id);
        proof {
            self.lemma_rows_changed(old_ents, ComponentKind::SpriteAnims);
        }
        r
    }

    /// Gives `entity_id` the `SpriteAnims` `val`, replacing the one it has, if any.
    pub fn overwrite_sprite_anims_for(&mut self, entity_id: usize, val: SpriteAnims)
        requires
            old(self).wf(),
            1 <= entity_id < old(self).num_entities(),
            old(self).sprite_anims_view().contains_key(entity_id) || old(self).has_room(ComponentKind::SpriteAnims),
        ensures
            final(self).wf(),
            final(self).agree_except(old(self), ComponentKind::SpriteAnims),
            final(self).sprite_anims_view() == old(self).sprite_anims_view().insert(entity_id, val),
            final(self).count(ComponentKind::SpriteAnims) == old(self).count(ComponentKind::SpriteAnims) + if old(self).sprite_anims_view().contains_key(entity_id) { 0int } else { 1 },
    {
        let idx = self.entities[entity_id].sprite_anims;
        if idx == SENTINEL {
            let ghost old_ents = self.entities@;
            push_in(&mut self.entities, &mut self.sprite_anims, ComponentKind::SpriteAnims, entity_id, val);
            proof {
                self.lemma_rows_changed(old_ents, ComponentKind::SpriteAnims);
            }
        } else {
            set_in(&self.entities, &mut self.sprite_anims, ComponentKind::SpriteAnims, entity_id, val);
        }
    }

    /// The `Terrain` of `entity_id`, if it has one.
    pub fn terrain_for(&self, entity_id: usize) -> (r: Option<&Terrain>)
        requires
            self.wf(),
            1 <= entity_id < self.num_entities(),
        ensures
            r matches Some(v) ==> self.terrain_view().contains_key(entity_id) && *v == self.terrain_view()[entity_id],
            r is None ==> !self.terrain_view().contains_key(entity_id),
    {
        get_ref(&self.entities, &self.terrain, ComponentKind::Terrain, entity_id)
    }

    /// The `Terrain` of `entity_id`, which has one.
    pub fn terrain_for_unchecked(&self, entity_id: usize) -> (r: &Terrain)
        requires
            self.wf(),
            self.terrain_view().contains_key(entity_id),
        ensures
            *r == self.terrain_view()[entity_id],
    {
        let idx = self.entities[entity_id].terrain;
        &self.terrain[idx].1
    }

    /// Each entity with a `Terrain`, once, in storage order.
    pub fn terrain_iter(&self) -> (r: Vec<usize>)
        requires
            self.wf(),
        ensures
            lists_ids(r@, self.terrain_view().dom()),
            r@ == self.terrain_order(),
            r@.len() == self.count(ComponentKind::Terrain),
    {
        proof {
            lemma_store_lists(self.entities@, self.terrain@, ComponentKind::Terrain);
        }
        let mut r: Vec<usize> = Vec::new();
        let mut i: usize = 1;
        while i < self.terrain.len()
            invariant
                1 <= i <= self.terrain@.len(),
                r@.len() == i - 1,
                forall|j: int| 0 <= j < i - 1 ==> r@[j] == #[trigger] self.terrain@[j + 1].0,
            decreases self.terrain@.len() - i,
        {
            r.push(self.terrain[i].0);
            i = i + 1;
        }
        proof {
            let s = self.terrain@.subrange(1, self.terrain@.len() as int);
            assert forall|j: int| 0 <= j < r@.len() implies r@[j] == #[trigger] s[j].0 by {
                assert(self.terrain@[j + 1].0 == r@[j]);
            }
            lemma_lists_ids(s, r@, self.terrain_view());
            assert(r@ =~= self.terrain_order());
        }
        r
    }

    /// Replaces the `Terrain` of `entity_id`, which has one.
    pub fn set_terrain_for(&mut self, entity_id: usize, val: Terrain)
        requires
            old(self).wf(),
            old(self).terrain_view().contains_key(entity_id),
        ensures
            final(self).wf(),
            final(self).agree_except(old(self), ComponentKind::Terrain),
            final(self).count(ComponentKind::Terrain) == old(self).count(ComponentKind::Terrain),
            final(self).terrain_view() == old(self).terrain_view().insert(entity_id, val),
    {
        set_in(&self.entities, &mut self.terrain, ComponentKind::Terrain, entity_id, val);
    }

    /// Detaches the `Terrain` of `entity_id`, which has one, and returns it.
    pub fn unset_terrain_for(&mut self, entity_id: usize) -> (r: Terrain)
        requires
            old(self).wf(),
            old(self).terrain_view().contains_key(entity_id),
        ensures
            final(self).wf(),
            final(self).agree_except(old(self), ComponentKind::Terrain),
            final(self).count(ComponentKind::Terrain) + 1 == old(self).count(ComponentKind::Terrain),
            r == old(self).terrain_view()[entity_id],
            final(self).terrain_view() == old(self).terrain_view().remove(entity_id),
    {
        let ghost old_ents = self.entities@;
        let r = unset_in(&mut self.entities, &mut self.terrain, ComponentKind::Terrain, entity_id);
        proof {
            self.lemma_rows_changed(old_ents, ComponentKind::Terrain);
        }
        r
    }

    /// Gives `entity_id` the `Terrain` `val`, replacing the one it has, if any.
    pub fn overwrite_terrain_for(&mut self, entity_id: usize, val: Terrain)
        requires
            old(self).wf(),
            1 <= entity_id < old(self).num_entities(),
            old(self).terrain_view().contains_key(entity_id) || old(self).has_room(ComponentKind::Terrain),
        ensures
            final(self).wf(),
            final(self).agree_except(old(self), ComponentKind::Terrain),
            final(self).terrain_view() == old(self).terrain_view().insert(entity_id, val),
            final(self).count(ComponentKind::Terrain) == old(self).count(ComponentKind::Terrain) + if old(self).terrain_view().contains_key(entity_id) { 0int } else { 1 },
    {
        let idx = self.entities[entity_id].terrain;
        if idx == SENTINEL {
            let ghost old_ents = self.entities@;
            push_in(&mut self.entities, &mut self.terrain, ComponentKind::Terrain, entity_id, val);
            proof {
                self.lemma_rows_changed(old_ents, ComponentKind::Terrain);
            }
        } else {
            set_in(&self.entities, &mut self.terrain, ComponentKind::Terrain, entity_id, val);
        }
    }

}


proof fn lemma_push_row<T>(ents: Seq<Entity>, s: Seq<(usize, T)>, k: ComponentKind, row: Entity)
    requires
        store_wf(ents, s, k),
        slot(row, k) == 0,
    ensures
        store_wf(ents.push(row), s, k),
        store_view(ents.push(row), s, k) == store_view(ents, s, k),
{
    let b = ents.push(row);
    assert forall|i: int| 1 <= i < s.len() implies 1 <= #[trigger] s[i].0 < b.len() && slot(
        b[s[i].0 as int],
        k,
    ) == i by {
        assert(b[s[i].0 as int] == ents[s[i].0 as int]);
    }
    assert forall|e: int| 1 <= e < b.len() implies slot(#[trigger] b[e], k) < s.len() && (slot(b[e], k)
        != 0 ==> s[slot(b[e], k) as int].0 == e) by {
        if e < ents.len() {
            assert(b[e] == ents[e]);
        }
    }
    assert(store_view(b, s, k) =~= store_view(ents, s, k));
}

impl Ecs {
    /// A deep copy of this world: the same entities with the same components.
    pub fn snapshot(&self) -> (r: Ecs)
        requires
            self.wf(),
        ensures
            r.wf(),
            r.num_entities() == self.num_entities(),
            r.pos_view() == self.pos_view(),
            r.count(ComponentKind::Pos) == self.count(ComponentKind::Pos),
            r.follow_view() == self.follow_view(),
            r.count(ComponentKind::Follow) == self.count(ComponentKind::Follow),
            r.debug_view() == self.debug_view(),
            r.count(ComponentKind::Debug) == self.count(ComponentKind::Debug),
            r.sprite_anims_view().dom() == self.sprite_anims_view().dom(),
            forall|e: usize| #[trigger] self.sprite_anims_view().contains_key(e) ==> r.sprite_anims_view()[e]@ == self.sprite_anims_view()[e]@,
            r.count(ComponentKind::SpriteAnims) == self.count(ComponentKind::SpriteAnims),
            r.terrain_view().dom() == self.terrain_view().dom(),
            forall|e: usize| #[trigger] self.terrain_view().contains_key(e) ==> r.terrain_view()[e].tiles.cells() == self.terrain_view()[e].tiles.cells(),
            r.count(ComponentKind::Terrain) == self.count(ComponentKind::Terrain),
    {
        let entities = copy_of(self.entities.as_slice());
        let pos = copy_of(self.pos.as_slice());
        let follow = copy_of(self.follow.as_slice());
        let debug = copy_of(self.debug.as_slice());
        let mut sprite_anims: Vec<(usize, SpriteAnims)> = Vec::with_capacity(self.sprite_anims.len());
        let mut i: usize = 0;
        while i < self.sprite_anims.len()
            invariant
                i <= self.sprite_anims@.len(),
                sprite_anims@.len() == i,
                forall|j: int| 0 <= j < i ==> (#[trigger] sprite_anims@[j]).0 == self.sprite_anims@[j].0 && sprite_anims@[j].1@ == self.sprite_anims@[j].1@,
            decreases self.sprite_anims@.len() - i,
        {
            let e = self.sprite_anims[i].0;
            let v = copy_of(self.sprite_anims[i].1.as_slice());
            sprite_anims.push((e, v));
            i = i + 1;
        }
        let mut terrain: Vec<(usize, Terrain)> = Vec::with_capacity(self.terrain.len());
        let mut i: usize = 0;
        while i < self.terrain.len()
            invariant
                i <= self.terrain@.len(),
                terrain@.len() == i,
                forall|j: int| 0 <= j < i ==> (#[trigger] terrain@[j]).0 == self.terrain@[j].0 && terrain@[j].1.tiles.cells() == self.terrain@[j].1.tiles.cells(),
            decreases self.terrain@.len() - i,
        {
            let e = self.terrain[i].0;
            let v = Terrain { tiles: self.terrain[i].1.tiles.duplicate() };
            terrain.push((e, v));
            i = i + 1;
        }
        let r = Ecs { entities, pos, follow, debug, sprite_anims, terrain };
        assert(r.sprite_anims_view().dom() =~= self.sprite_anims_view().dom());
        assert(r.terrain_view().dom() =~= self.terrain_view().dom());
        r
    }
}

impl Reset for Ecs {
    open spec fn can_reset(&self) -> bool {
        self.wf()
    }

    /// Only the null entity, and no components.
    open spec fn is_reset(&self) -> bool {
        &&& self.wf()
        &&& self.num_entities() == 1
        &&& self.pos_view().is_empty()
        &&& self.count(ComponentKind::Pos) == 0
        &&& self.follow_view().is_empty()
        &&& self.count(ComponentKind::Follow) == 0
        &&& self.debug_view().is_empty()
        &&& self.count(ComponentKind::Debug) == 0
        &&& self.sprite_anims_view().is_empty()
        &&& self.count(ComponentKind::SpriteAnims) == 0
        &&& self.terrain_view().is_empty()
        &&& self.count(ComponentKind::Terrain) == 0
    }

    /// Truncates every array back to its sentinel, keeping its memory.
    fn reset(&mut self) {
        self.entities.truncate(1);
        self.pos.truncate(1);
        self.follow.truncate(1);
        self.debug.truncate(1);
        self.sprite_anims.truncate(1);
        self.terrain.truncate(1);
        assert(self.pos_view() =~= Map::empty());
        assert(self.follow_view() =~= Map::empty());
        assert(self.debug_view() =~= Map::empty());
        assert(self.sprite_anims_view() =~= Map::empty());
        assert(self.terrain_view() =~= Map::empty());
    }
}

/// Builds an entity from the components it is given.
pub struct EntitySpawner {
    pub pos: Option<Pos>,
    pub follow: Option<Follow>,
    pub debug: Option<DebugFlags>,
    pub sprite_anims: Option<SpriteAnims>,
    pub terrain: Option<Terrain>,
}

impl EntitySpawner {
    /// A spawner without components.
    pub fn new() -> (r: Self)
        ensures
            r.pos is None,
            r.follow is None,
            r.debug is None,
            r.sprite_anims is None,
            r.terrain is None,
    {
        EntitySpawner { pos: None, follow: None, debug: None, sprite_anims: None, terrain: None }
    }

    /// Adds `value` as the `Pos` of the entity.
    pub fn with_pos(self, value: Pos) -> (r: Self)
        ensures
            r.pos == Some(value),
            r.follow == self.follow,
            r.debug == self.debug,
            r.sprite_anims == self.sprite_anims,
            r.terrain == self.terrain,
    {
        EntitySpawner { pos: Some(value), follow: self.follow, debug: self.debug, sprite_anims: self.sprite_anims, terrain: self.terrain }
    }

    /// Adds `value` as the `Follow` of the entity.
    pub fn with_follow(self, value: Follow) -> (r: Self)
        ensures
            r.pos == self.pos,
            r.follow == Some(value),
            r.debug == self.debug,
            r.sprite_anims == self.sprite_anims,
            r.terrain == self.terrain,
    {
        EntitySpawner { follow: Some(value), pos: self.pos, debug: self.debug, sprite_anims: self.sprite_anims, terrain: self.terrain }
    }

    /// Adds `value` as the `DebugFlags` of the entity.
    pub fn with_debug(self, value: DebugFlags) -> (r: Self)
        ensures
            r.pos == self.pos,
            r.follow == self.follow,
            r.debug == Some(value),
            r.sprite_anims == self.sprite_anims,
            r.terrain == self.terrain,
    {
        EntitySpawner { debug: Some(value), pos: self.pos, follow: self.follow, sprite_anims: self.sprite_anims, terrain: self.terrain }
    }

    /// Adds `value` as the `SpriteAnims` of the entity.
    pub fn with_sprite_anims(self, value: SpriteAnims) -> (r: Self)
        ensures
            r.pos == self.pos,
            r.follow == self.follow,
            r.debug == self.debug,
            r.sprite_anims == Some(value),
            r.terrain == self.terrain,
    {
        EntitySpawner { sprite_anims: Some(value), pos: self.pos, follow: self.follow, debug: self.debug, terrain: self.terrain }
    }

    /// Adds `value` as the `Terrain` of the entity.
    pub fn with_terrain(self, value: Terrain) -> (r: Self)
        ensures
            r.pos == self.pos,
            r.follow == self.follow,
            r.debug == self.debug,
            r.sprite_anims == self.sprite_anims,
            r.terrain == Some(value),
    {
        EntitySpawner { terrain: Some(value), pos: self.pos, follow: self.follow, debug: self.debug, sprite_anims: self.sprite_anims }
    }

    /// Adds the position (0, 0) to the entity.
    pub fn with_pos_default(self) -> (r: Self)
        ensures
            r.pos == Some(Pos { x: 0, y: 0 }),
            r.follow == self.follow,
            r.debug == self.debug,
            r.sprite_anims == self.sprite_anims,
            r.terrain == self.terrain,
    {
        self.with_pos(Pos::origin())
    }

    /// Appends a new entity with the given components to the world and
    /// returns its id.
    pub fn spawn(self, ecs: &mut Ecs) -> (r: usize)
        requires
            old(ecs).wf(),
            old(ecs).num_entities() < MAX_ENTITIES,
            self.follow is Some ==> old(ecs).has_room(ComponentKind::Follow),
            self.debug is Some ==> old(ecs).has_room(ComponentKind::Debug),
            self.sprite_anims is Some ==> old(ecs).has_room(ComponentKind::SpriteAnims),
            self.terrain is Some ==> old(ecs).has_room(ComponentKind::Terrain),
        ensures
            final(ecs).wf(),
            r == old(ecs).num_entities(),
            r != SENTINEL,
            final(ecs).num_entities() == old(ecs).num_entities() + 1,
            final(ecs).pos_view() == (match self.pos {
                Some(v) => old(ecs).pos_view().insert(r, v),
                None => old(ecs).pos_view(),
            }),
            final(ecs).count(ComponentKind::Pos) == old(ecs).count(ComponentKind::Pos) + if self.pos is Some { 1int } else { 0 },
            final(ecs).follow_view() == (match self.follow {
                Some(v) => old(ecs).follow_view().insert(r, v),
                None => old(ecs).follow_view(),
            }),
            final(ecs).count(ComponentKind::Follow) == old(ecs).count(ComponentKind::Follow) + if self.follow is Some { 1int } else { 0 },
            final(ecs).debug_view() == (match self.debug {
                Some(v) => old(ecs).debug_view().insert(r, v),
                None => old(ecs).debug_view(),
            }),
            final(ecs).count(ComponentKind::Debug) == old(ecs).count(ComponentKind::Debug) + if self.debug is Some { 1int } else { 0 },
            final(ecs).sprite_anims_view() == (match self.sprite_anims {
                Some(v) => old(ecs).sprite_anims_view().insert(r, v),
                None => old(ecs).sprite_anims_view(),
            }),
            final(ecs).count(ComponentKind::SpriteAnims) == old(ecs).count(ComponentKind::SpriteAnims) + if self.sprite_anims is Some { 1int } else { 0 },
            final(ecs).terrain_view() == (match self.terrain {
                Some(v) => old(ecs).terrain_view().insert(r, v),
                None => old(ecs).terrain_view(),
            }),
            final(ecs).count(ComponentKind::Terrain) == old(ecs).count(ComponentKind::Terrain) + if self.terrain is Some { 1int } else { 0 },
    {
        proof {
            lemma_counts_bounded(ecs);
            assert(ecs.count(ComponentKind::Pos) < ecs.num_entities());
        }
        let entity_id = ecs.entities.len();
        let ghost e0 = ecs.entities@;
        let row = Entity::empty();
        ecs.entities.push(row);
        proof {
            lemma_push_row(e0, ecs.pos@, ComponentKind::Pos, row);
            lemma_push_row(e0, ecs.follow@, ComponentKind::Follow, row);
            lemma_push_row(e0, ecs.debug@, ComponentKind::Debug, row);
            lemma_push_row(e0, ecs.sprite_anims@, ComponentKind::SpriteAnims, row);
            lemma_push_row(e0, ecs.terrain@, ComponentKind::Terrain, row);
        }
        match self.pos {
            Some(v) => {
                let ghost old_ents = ecs.entities@;
                push_in(&mut ecs.entities, &mut ecs.pos, ComponentKind::Pos, entity_id, v);
                proof {
                    ecs.lemma_rows_changed(old_ents, ComponentKind::Pos);
                }
            }
            None => {}
        }
        match self.follow {
            Some(v) => {
                let ghost old_ents = ecs.entities@;
                push_in(&mut ecs.entities, &mut ecs.follow, ComponentKind::Follow, entity_id, v);
                proof {
                    ecs.lemma_rows_changed(old_ents, ComponentKind::Follow);
                }
            }
            None => {}
        }
        match self.debug {
            Some(v) => {
                let ghost old_ents = ecs.entities@;
                push_in(&mut ecs.entities, &mut ecs.debug, ComponentKind::Debug, entity_id, v);
                proof {
                    ecs.lemma_rows_changed(old_ents, ComponentKind::Debug);
                }
            }
            None => {}
        }
        match self.sprite_anims {
            Some(v) => {
                let ghost old_ents = ecs.entities@;
                push_in(&mut ecs.entities, &mut ecs.sprite_anims, ComponentKind::SpriteAnims, entity_id, v);
                proof {
                    ecs.lemma_rows_changed(old_ents, ComponentKind::SpriteAnims);
                }
            }
            None => {}
        }
        match self.terrain {
            Some(v) => {
                let ghost old_ents = ecs.entities@;
                push_in(&mut ecs.entities, &mut ecs.terrain, ComponentKind::Terrain, entity_id, v);
                proof {
                    ecs.lemma_rows_changed(old_ents, ComponentKind::Terrain);
                }
            }
            None => {}
        }
        entity_id
    }
}

proof fn lemma_store_count<T>(ents: Seq<Entity>, store: Seq<(usize, T)>, k: ComponentKind)
    requires
        store_wf(ents, store, k),
    ensures
        store.len() <= ents.len(),
{
    let s = store.subrange(1, store.len() as int).map_values(|p: (usize, T)| p.0 as int);
    assert forall|i: int, j: int| 0 <= i < s.len() && 0 <= j < s.len() && i != j implies s[i] != s[j] by {
        assert(s[i] == store[i + 1].0 as int);
        assert(s[j] == store[j + 1].0 as int);
        assert(slot(ents[store[i + 1].0 as int], k) == i + 1);
        assert(slot(ents[store[j + 1].0 as int], k) == j + 1);
    }
    assert(s.no_duplicates());
    s.unique_seq_to_set();
    vstd::set_lib::lemma_int_range(1, ents.len() as int);
    assert forall|x: int| s.to_set().contains(x) implies vstd::set_lib::set_int_range(1, ents.len() as int).contains(x) by {
        let i = choose|i: int| 0 <= i < s.len() && s[i] == x;
        assert(store[i + 1].0 as int == x);
    }
    vstd::set_lib::lemma_len_subset(s.to_set(), vstd::set_lib::set_int_range(1, ents.len() as int));
}

/// In a well-formed world the null entity and every entity fit in
/// `MAX_ENTITIES`, and there are fewer components of each type than
/// entities, and fewer than the type's capacity.
pub proof fn lemma_counts_bounded(ecs: &Ecs)
    requires
        ecs.wf(),
    ensures
        1 <= ecs.num_entities() <= MAX_ENTITIES,
        forall|k: ComponentKind| #[trigger] ecs.count(k) < ecs.num_entities(),
        forall|k: ComponentKind| #[trigger] ecs.count(k) < capacity(k),
{
    lemma_store_count(ecs.entities@, ecs.pos@, ComponentKind::Pos);
    lemma_store_count(ecs.entities@, ecs.follow@, ComponentKind::Follow);
    lemma_store_count(ecs.entities@, ecs.debug@, ComponentKind::Debug);
    lemma_store_count(ecs.entities@, ecs.sprite_anims@, ComponentKind::SpriteAnims);
    lemma_store_count(ecs.entities@, ecs.terrain@, ComponentKind::Terrain);
}

/// A slot of 0 and the absence of a component are the same thing: for every
/// live entity and component type, the entity's slot is the sentinel exactly
/// when it has no component of that type. Only live entities hold components.
pub proof fn lemma_sentinel(ecs: &Ecs, e: usize, k: ComponentKind)
    requires
        ecs.wf(),
    ensures
        ecs.dom(k).contains(e) ==> 1 <= e < ecs.num_entities(),
        1 <= e < ecs.num_entities() ==> ((ecs.slot(e, k) == SENTINEL) <==> !ecs.dom(k).contains(e)),
{
}

/// After the component of `e` is detached from a store, listing the store
/// gives every entity that had such a component except `e`, each once, each
/// with the value it had before.
pub proof fn lemma_unset_then_iter<T>(
    before: Map<usize, T>,
    after: Map<usize, T>,
    e: usize,
    items: Seq<(usize, T)>,
)
    requires
        before.contains_key(e),
        after == before.remove(e),
        lists(items, after),
    ensures
        forall|x: usize|
            (exists|i: int| 0 <= i < items.len() && #[trigger] items[i].0 == x) <==> (
            before.contains_key(x) && x != e),
        forall|i: int, j: int| 0 <= i < j < items.len() ==> #[trigger] items[i].0 != #[trigger] items[j].0,
        forall|i: int| 0 <= i < items.len() ==> before[#[trigger] items[i].0] == items[i].1,
{
    assert forall|x: usize|
        (exists|i: int| 0 <= i < items.len() && #[trigger] items[i].0 == x) implies (
        before.contains_key(x) && x != e) by {
        let i = choose|i: int| 0 <= i < items.len() && #[trigger] items[i].0 == x;
        assert(after.contains_key(items[i].0));
    }
    assert forall|x: usize| before.contains_key(x) && x != e implies (exists|i: int|
        0 <= i < items.len() && #[trigger] items[i].0 == x) by {
        assert(after.contains_key(x));
    }
    assert forall|i: int| 0 <= i < items.len() implies before[#[trigger] items[i].0] == items[i].1 by {
        assert(after.contains_key(items[i].0));
    }
}

impl Ecs {
    /// A mutable reference to the `Pos` of `entity_id`, which has one.
    pub fn pos_for_mut_unchecked(&mut self, entity_id: usize) -> (r: &mut Pos)
        requires
            old(self).wf(),
            old(self).pos_view().contains_key(entity_id),
        ensures
            *r == old(self).pos_view()[entity_id],
            final(self).wf(),
            final(self).agree_except(old(self), ComponentKind::Pos),
            final(self).count(ComponentKind::Pos) == old(self).count(ComponentKind::Pos),
            final(self).pos_view() == old(self).pos_view().insert(entity_id, *final(r)),
    {
        let idx = self.entities[entity_id].pos;
        &mut self.pos[idx].1
    }

    /// A mutable reference to the `Follow` of `entity_id`, which has one.
    pub fn follow_for_mut_unchecked(&mut self, entity_id: usize) -> (r: &mut Follow)
        requires
            old(self).wf(),
            old(self).follow_view().contains_key(entity_id),
        ensures
            *r == old(self).follow_view()[entity_id],
            final(self).wf(),
            final(self).agree_except(old(self), ComponentKind::Follow),
            final(self).count(ComponentKind::Follow) == old(self).count(ComponentKind::Follow),
            final(self).follow_view() == old(self).follow_view().insert(entity_id, *final(r)),
    {
        let idx = self.entities[entity_id].follow;
        &mut self.follow[idx].1
    }

    /// A mutable reference to the `DebugFlags` of `entity_id`, which has one.
    pub fn debug_for_mut_unchecked(&mut self, entity_id: usize) -> (r: &mut DebugFlags)
        requires
            old(self).wf(),
            old(self).debug_view().contains_key(entity_id),
        ensures
            *r == old(self).debug_view()[entity_id],
            final(self).wf(),
            final(self).agree_except(old(self), ComponentKind::Debug),
            final(self).count(ComponentKind::Debug) == old(self).count(ComponentKind::Debug),
            final(self).debug_view() == old(self).debug_view().insert(entity_id, *final(r)),
    {
        let idx = self.entities[entity_id].debug;
        &mut self.debug[idx].1
    }

    /// A mutable reference to the `SpriteAnims` of `entity_id`, which has one.
    pub fn sprite_anims_for_mut_unchecked(&mut self, entity_id: usize) -> (r: &mut SpriteAnims)
        requires
            old(self).wf(),
            old(self).sprite_anims_view().contains_key(entity_id),
        ensures
            *r == old(self).sprite_anims_view()[entity_id],
            final(self).wf(),
            final(self).agree_except(old(self), ComponentKind::SpriteAnims),
            final(self).count(ComponentKind::SpriteAnims) == old(self).count(ComponentKind::SpriteAnims),
            final(self).sprite_anims_view() == old(self).sprite_anims_view().insert(entity_id, *final(r)),
    {
        let idx = self.entities[entity_id].sprite_anims;
        &mut self.sprite_anims[idx].1
    }

    /// A mutable reference to the `Terrain` of `entity_id`, which has one.
    pub fn terrain_for_mut_unchecked(&mut self, entity_id: usize) -> (r: &mut Terrain)
        requires
            old(self).wf(),
            old(self).terrain_view().contains_key(entity_id),
        ensures
            *r == old(self).terrain_view()[entity_id],
            final(self).wf(),
            final(self).agree_except(old(self), ComponentKind::Terrain),
            final(self).count(ComponentKind::Terrain) == old(self).count(ComponentKind::Terrain),
            final(self).terrain_view() == old(self).terrain_view().insert(entity_id, *final(r)),
    {
        let idx = self.entities[entity_id].terrain;
        &mut self.terrain[idx].1
    }
}

} // verus!
