use vstd::prelude::*;

use crate::components::{Color, ComponentKind, DebugFlags, Follow, Pos, SpriteAnim, SpriteAnims, Tile};
use crate::draw::{
    all_entities_ok, anim_views, animated_all, system_draws, terrain_draws,
    update_and_render_animations, update_and_render_terrain, CelDraw, DrawError, TileDraw,
};
use crate::ecs::{capacity, lemma_sentinel, lists, Ecs, EntitySpawner, MAX_ENTITIES, SENTINEL};
use crate::manager::{ResourceLoader, ResourceManager};
use crate::navigation::{
    followed_follow, followed_pos, follower_ready, followers_ready_in, update_and_render as follow_system,
};
use crate::spawnables::{
    generated_solid, spawn_terrain, spawn_zorb, stopped_cursor, TerrainResourceIds, ZorbResourceIds, ZORB_START,
};
use crate::sprite_map::{ResolvedTileset, SpriteMap};
use crate::tile_map::{TileMap, SIZE};
use crate::types::Id;
use crate::world::{same_world, MemoryPool};

verus! {

/// What the host decoded from its input this frame.
#[derive(Clone, Copy)]
pub struct FrameInput {
    pub quit: bool,
    pub escape_down: bool,
    pub right_mouse_down: bool,
    pub left_mouse_down: bool,
    /// Where the left mouse button points, in the world.
    pub left_mouse_world: Pos,
}

/// Why a frame failed.
#[derive(Clone, Copy, Debug, PartialEq, Eq, Structural)]
pub enum FrameError {
    /// An entity or a component did not fit.
    TooManyEntities,
    /// A follower or its target lacks a position.
    BrokenFollow,
    /// The terrain's tileset is not loaded or does not fit its texture.
    BadTileset,
    Draw(DrawError),
}

/// What a frame draws: terrain tiles, animation cels, and debugging boxes.
pub struct FrameDraws {
    pub tiles: Vec<TileDraw>,
    pub cels: Vec<CelDraw>,
    pub boxes: Vec<(Pos, Color)>,
}

/// Whether every follower of `prev` is ready to move (see `follower_ready`).
pub fn followers_ready(prev: &Ecs, next: &Ecs) -> (r: bool)
    requires
        prev.wf(),
        next.wf(),
    ensures
        r == forall|e: usize| #[trigger] prev.follow_view().contains_key(e) ==> follower_ready(prev, next, e),
{
    let items = prev.follow_iter();
    let mut i: usize = 0;
    while i < items.len()
        invariant
            prev.wf(),
            next.wf(),
            lists(items@, prev.follow_view()),
            i <= items@.len(),
            forall|j: int| 0 <= j < i ==> follower_ready(prev, next, #[trigger] items@[j].0),
        decreases items@.len() - i,
    {
        let (e, f) = items[i];
        proof {
            lemma_sentinel(prev, e, ComponentKind::Follow);
            lemma_sentinel(prev, f.target_entity, ComponentKind::Pos);
            lemma_sentinel(next, e, ComponentKind::Pos);
            lemma_sentinel(next, e, ComponentKind::Follow);
        }
        let t = f.target_entity;
        let ok = prev.pos_for(e).is_some() && t >= 1 && t < prev.num_entities_exec() && prev.pos_for(t).is_some()
            && e < next.num_entities_exec() && next.pos_for(e).is_some() && (!f.stop_after_arriving
            || next.follow_for(e).is_some());
        if !ok {
            assert(!follower_ready(prev, next, e));
            return false;
        }
        i = i + 1;
    }
    proof {
        assert forall|e: usize| #[trigger] prev.follow_view().contains_key(e) implies follower_ready(prev, next, e) by {
            let j = choose|j: int| 0 <= j < items@.len() && #[trigger] items@[j].0 == e;
        }
    }
    true
}

/// The boxes of the debug system for the first `n` of `items` (entities with
/// their positions): one for each that has a debug colour.
pub open spec fn boxes_of(prev: &Ecs, items: Seq<(usize, Pos)>, n: int) -> Seq<(Pos, Color)>
    decreases n,
{
    if n <= 0 {
        Seq::empty()
    } else {
        let e = items[n - 1].0;
        if prev.debug_view().contains_key(e) && prev.debug_view()[e].box_color is Some {
            boxes_of(prev, items, n - 1).push((items[n - 1].1, prev.debug_view()[e].box_color.unwrap()))
        } else {
            boxes_of(prev, items, n - 1)
        }
    }
}

/// The debug system: a box for each entity of `prev` with a position and a
/// debug colour, in the storage order of positions.
pub fn debug_boxes(prev: &Ecs) -> (r: Vec<(Pos, Color)>)
    requires
        prev.wf(),
    ensures
        r@ == boxes_of(prev, prev.pos_items(), prev.pos_items().len() as int),
{
    let items = prev.pos_iter();
    let mut r: Vec<(Pos, Color)> = Vec::new();
    let mut i: usize = 0;
    while i < items.len()
        invariant
            prev.wf(),
            items@ == prev.pos_items(),
            lists(items@, prev.pos_view()),
            i <= items@.len(),
            r@ == boxes_of(prev, items@, i as int),
        decreases items@.len() - i,
    {
        let (e, pos) = items[i];
        proof {
            lemma_sentinel(prev, e, ComponentKind::Pos);
            assert(prev.pos_view().contains_key(items@[i as int].0));
        }
        match prev.debug_for(e) {
            Some(flags) => match flags.box_color {
                Some(c) => {
                    r.push((pos, c));
                },
                None => {},
            },
            None => {},
        }
        i = i + 1;
    }
    r
}

/// The tileset with id `ids.tileset` of the sprite map `ids.sprite`.
pub open spec fn resolved_tileset(cache: Seq<SpriteMap>, ids: TerrainResourceIds) -> ResolvedTileset {
    let s = cache[ids.sprite.val as int];
    let t = s.tilesets()[ids.tileset.val as int % 0x10000];
    ResolvedTileset { rect: s.cel_list()[t.cel as int].tex_rect, grid_size: t.grid_size }
}

/// The terrain's tileset is loaded, its id belongs to its sprite map, and
/// all its sub-tiles fit in the texture.
pub open spec fn tileset_resolvable(cache: Seq<SpriteMap>, ids: TerrainResourceIds) -> bool {
    &&& ids.sprite.val < cache.len()
    &&& ids.tileset.val / 0x10000 == cache[ids.sprite.val as int].id_spec()
    &&& ids.tileset.val % 0x10000 < cache[ids.sprite.val as int].tilesets().len()
    &&& resolved_tileset(cache, ids).rect.x + 11 * resolved_tileset(cache, ids).grid_size <= u16::MAX
    &&& resolved_tileset(cache, ids).rect.y + 3 * resolved_tileset(cache, ids).grid_size <= u16::MAX
}

/// The terrain of `prev` can be drawn: there is none, or the tileset
/// resolves and every terrain has all its cells.
pub open spec fn terrain_ok(cache: Seq<SpriteMap>, prev: &Ecs, ids: TerrainResourceIds) -> bool {
    ||| prev.count(ComponentKind::Terrain) == 0
    ||| tileset_resolvable(cache, ids) && forall|e: usize| #[trigger] prev.terrain_view().contains_key(e)
        ==> prev.terrain_view()[e].tiles.wf()
}

/// The tiles drawn for the first `j` terrains of `order`.
pub open spec fn tile_draws(prev: &Ecs, tileset: ResolvedTileset, order: Seq<usize>, j: int) -> Seq<TileDraw>
    decreases j,
{
    if j <= 0 {
        Seq::empty()
    } else {
        tile_draws(prev, tileset, order, j - 1) + terrain_draws(
            prev.terrain_view()[order[j - 1]].tiles,
            tileset,
            SIZE as int,
        )
    }
}

/// Resolves the terrain's tileset, if it can be.
fn terrain_tileset<L: ResourceLoader<SpriteMap>>(ids: &TerrainResourceIds, sheets: &ResourceManager<SpriteMap, L>) -> (r:
    Option<ResolvedTileset>)
    ensures
        (r is Some) <==> tileset_resolvable(sheets.cache(), *ids),
        r matches Some(t) ==> t == resolved_tileset(sheets.cache(), *ids),
{
    if ids.sprite.val as usize >= sheets.len() {
        return None;
    }
    let sheet = sheets.get(ids.sprite);
    if ids.tileset.hi() as u32 != sheet.id().val || ids.tileset.lo() as usize >= sheet.tileset_count() {
        return None;
    }
    let t = sheet.get_tileset(ids.tileset);
    if t.rect.x as u32 + 11 * t.grid_size as u32 > 65535 || t.rect.y as u32 + 3 * t.grid_size as u32 > 65535 {
        return None;
    }
    Some(t)
}

/// Whether the frame spawns the terrain: `prev` has none.
pub open spec fn spawns_terrain(p: &MemoryPool) -> bool {
    p.prev.terrain == SENTINEL
}

/// Whether the frame spawns the zorb: a right click while `prev` has none.
pub open spec fn spawns_zorb(p: &MemoryPool, input: &FrameInput) -> bool {
    input.right_mouse_down && p.prev.zorb == SENTINEL
}

/// Whether the frame sends the zorb of `prev` to a left click.
pub open spec fn clicks(p: &MemoryPool, input: &FrameInput) -> bool {
    input.left_mouse_down && p.prev.zorb != SENTINEL && p.prev.zorb < p.next.ecs.num_entities()
}

/// 1 for `true`, 0 for `false`.
pub open spec fn one_if(b: bool) -> int {
    if b {
        1
    } else {
        0
    }
}

/// The id of the terrain the frame spawns.
pub open spec fn new_terrain_id(p: &MemoryPool) -> usize {
    p.next.ecs.num_entities() as usize
}

/// The id of the entity spawned after the terrain: the zorb, or the marker
/// of a left click.
pub open spec fn second_id(p: &MemoryPool) -> usize {
    (p.next.ecs.num_entities() + one_if(spawns_terrain(p))) as usize
}

/// How many components of type `k` the frame's input adds to `next`.
pub open spec fn needed(p: &MemoryPool, input: &FrameInput, k: ComponentKind) -> int {
    let t = one_if(spawns_terrain(p));
    let z = one_if(spawns_zorb(p, input));
    let c = one_if(clicks(p, input));
    match k {
        ComponentKind::Pos => t + z + c,
        ComponentKind::Terrain => t,
        ComponentKind::Debug => z,
        ComponentKind::SpriteAnims => z + one_if(
            clicks(p, input) && !p.next.ecs.sprite_anims_view().contains_key(p.prev.zorb),
        ),
        ComponentKind::Follow => one_if(clicks(p, input) && !p.next.ecs.follow_view().contains_key(p.prev.zorb)),
    }
}

/// `n` more components of type `k` fit in `ecs`.
pub open spec fn room_for_n(ecs: &Ecs, k: ComponentKind, n: int) -> bool {
    n == 0 || ecs.count(k) + n < capacity(k)
}

/// Everything that the input spawns fits in `next`.
pub open spec fn input_fits(p: &MemoryPool, input: &FrameInput) -> bool {
    &&& p.next.ecs.num_entities() + needed(p, input, ComponentKind::Pos) <= MAX_ENTITIES
    &&& forall|k: ComponentKind| #[trigger] room_for_n(&p.next.ecs, k, needed(p, input, k))
}

/// The animations that the zorb plays, with the body animation `body`.
pub open spec fn zorb_anims(ids: &ZorbResourceIds, body: Id<crate::sprite_map::SpriteMapAnimation>) -> Seq<SpriteAnim> {
    seq![
        SpriteAnim { sprite: ids.sprite, anim: body, cursor: stopped_cursor() },
        SpriteAnim { sprite: ids.sprite, anim: ids.anim_face_cute, cursor: stopped_cursor() },
    ]
}

/// The positions of `next` after the input.
pub open spec fn input_pos(p: &MemoryPool, input: &FrameInput) -> Map<usize, Pos> {
    let p0 = p.next.ecs.pos_view();
    let p1 = if spawns_terrain(p) {
        p0.insert(new_terrain_id(p), Pos { x: 0, y: 0 })
    } else {
        p0
    };
    let p2 = if spawns_zorb(p, input) {
        p1.insert(second_id(p), Pos { x: ZORB_START, y: ZORB_START })
    } else {
        p1
    };
    if clicks(p, input) {
        p2.insert(second_id(p), input.left_mouse_world)
    } else {
        p2
    }
}

/// The `Follow`s of `next` after the input: on a left click the zorb follows
/// the marker until it arrives.
pub open spec fn input_follow(p: &MemoryPool, input: &FrameInput) -> Map<usize, Follow> {
    if clicks(p, input) {
        p.next.ecs.follow_view().insert(p.prev.zorb, Follow { stop_after_arriving: true, target_entity: second_id(p) })
    } else {
        p.next.ecs.follow_view()
    }
}

/// The red box of the zorb.
pub open spec fn zorb_flags() -> DebugFlags {
    DebugFlags { box_color: Some(Color { r: 255, g: 0, b: 0, a: 255 }) }
}

/// The debug flags of `next` after the input.
pub open spec fn input_debug(p: &MemoryPool, input: &FrameInput) -> Map<usize, DebugFlags> {
    if spawns_zorb(p, input) {
        p.next.ecs.debug_view().insert(second_id(p), zorb_flags())
    } else {
        p.next.ecs.debug_view()
    }
}

/// The animations of `next` after the input: the new zorb idles, the zorb
/// sent to a click walks.
pub open spec fn input_anims(p: &MemoryPool, input: &FrameInput, ids: &ZorbResourceIds) -> Map<usize, Seq<SpriteAnim>> {
    let a0 = anim_views(&p.next.ecs);
    let a1 = if spawns_zorb(p, input) {
        a0.insert(second_id(p), zorb_anims(ids, ids.anim_body_idle))
    } else {
        a0
    };
    if clicks(p, input) {
        a1.insert(p.prev.zorb, zorb_anims(ids, ids.anim_body_walk))
    } else {
        a1
    }
}

/// `s` is `next` of `p` after the input.
pub open spec fn input_applied(p: &MemoryPool, input: &FrameInput, ids: &ZorbResourceIds, s: &crate::world::State) -> bool {
    &&& s.ecs.wf()
    &&& s.ecs.num_entities() == p.next.ecs.num_entities() + needed(p, input, ComponentKind::Pos)
    &&& s.ecs.pos_view() == input_pos(p, input)
    &&& s.ecs.follow_view() == input_follow(p, input)
    &&& s.ecs.debug_view() == input_debug(p, input)
    &&& anim_views(&s.ecs) == input_anims(p, input, ids)
    &&& s.ecs.terrain_view().dom() == (if spawns_terrain(p) {
        p.next.ecs.terrain_view().dom().insert(new_terrain_id(p))
    } else {
        p.next.ecs.terrain_view().dom()
    })
    &&& forall|e: usize| #[trigger] p.next.ecs.terrain_view().contains_key(e) ==> s.ecs.terrain_view()[e]
        == p.next.ecs.terrain_view()[e]
    &&& spawns_terrain(p) ==> forall|x: int, y: int|
        TileMap::<Tile>::in_padded(x, y) ==> #[trigger] s.ecs.terrain_view()[new_terrain_id(p)].tiles.at(x, y)
            == Tile(generated_solid(x, y))
    &&& s.terrain == (if spawns_terrain(p) {
        new_terrain_id(p)
    } else {
        p.next.terrain
    })
    &&& s.zorb == (if spawns_zorb(p, input) {
        second_id(p)
    } else {
        p.next.zorb
    })
}

/// Whether `n` more components of type `k` fit.
fn room_n(ecs: &Ecs, k: ComponentKind, n: usize) -> (r: bool)
    requires
        ecs.wf(),
        n <= 3,
    ensures
        r == room_for_n(ecs, k, n as int),
{
    let cap: usize = match k {
        ComponentKind::Follow => crate::ecs::MAX_FOLLOW,
        ComponentKind::Terrain => crate::ecs::MAX_TERRAIN,
        _ => MAX_ENTITIES,
    };
    proof {
        crate::ecs::lemma_counts_bounded(ecs);
    }
    n == 0 || ecs.count_of(k) + n < cap
}

/// Applies the player's input to `next`: spawns the terrain when `prev`
/// has none, spawns the zorb on a right click when `prev` has none, and on a
/// left click spawns a marker at the clicked point and sets the zorb (of
/// `prev`) walking towards it until it arrives. When what this needs does not
/// fit, nothing changes and the result is `TooManyEntities`.
pub fn apply_input(pool: &mut MemoryPool, zorb: &ZorbResourceIds, input: &FrameInput) -> (r: Result<(), FrameError>)
    requires
        old(pool).prev.ecs.wf(),
        old(pool).next.ecs.wf(),
    ensures
        (r is Err) <==> !input_fits(old(pool), input),
        r is Err ==> r == Err::<(), FrameError>(FrameError::TooManyEntities) && *final(pool) == *old(pool),
        r is Ok ==> final(pool).prev == old(pool).prev && input_applied(old(pool), input, zorb, &final(pool).next),
{
    let ghost p0 = *pool;
    proof {
        crate::ecs::lemma_counts_bounded(&pool.next.ecs);
    }
    let t = pool.prev.terrain == SENTINEL;
    let z = input.right_mouse_down && pool.prev.zorb == SENTINEL;
    let zid = pool.prev.zorb;
    let c = input.left_mouse_down && zid != SENTINEL && zid < pool.next.ecs.num_entities_exec();
    let anims_missing = c && pool.next.ecs.sprite_anims_for(zid).is_none();
    let follow_missing = c && pool.next.ecs.follow_for(zid).is_none();
    let n_t: usize = if t { 1 } else { 0 };
    let n_z: usize = if z { 1 } else { 0 };
    let n_c: usize = if c { 1 } else { 0 };
    let n_a: usize = if anims_missing { 1 } else { 0 };
    let n_f: usize = if follow_missing { 1 } else { 0 };
    let fits = pool.next.ecs.num_entities_exec() + n_t + n_z + n_c <= MAX_ENTITIES
        && room_n(&pool.next.ecs, ComponentKind::Pos, n_t + n_z + n_c)
        && room_n(&pool.next.ecs, ComponentKind::Terrain, n_t)
        && room_n(&pool.next.ecs, ComponentKind::Debug, n_z)
        && room_n(&pool.next.ecs, ComponentKind::SpriteAnims, n_z + n_a)
        && room_n(&pool.next.ecs, ComponentKind::Follow, n_f);
    proof {
        assert(needed(&p0, input, ComponentKind::Pos) == n_t + n_z + n_c);
        assert(needed(&p0, input, ComponentKind::SpriteAnims) == n_z + n_a);
        assert(needed(&p0, input, ComponentKind::Follow) == n_f);
        if fits {
            assert forall|k: ComponentKind| #[trigger] room_for_n(&p0.next.ecs, k, needed(&p0, input, k)) by {
                match k {
                    ComponentKind::Pos => {},
                    ComponentKind::Follow => {},
                    ComponentKind::Debug => {},
                    ComponentKind::SpriteAnims => {},
                    ComponentKind::Terrain => {},
                }
            }
        } else {
            if p0.next.ecs.num_entities() + needed(&p0, input, ComponentKind::Pos) <= MAX_ENTITIES {
                if !room_for_n(&p0.next.ecs, ComponentKind::Pos, n_t + n_z + n_c) {
                    assert(!room_for_n(&p0.next.ecs, ComponentKind::Pos, needed(&p0, input, ComponentKind::Pos)));
                } else if !room_for_n(&p0.next.ecs, ComponentKind::Terrain, n_t as int) {
                    assert(!room_for_n(&p0.next.ecs, ComponentKind::Terrain, needed(&p0, input, ComponentKind::Terrain)));
                } else if !room_for_n(&p0.next.ecs, ComponentKind::Debug, n_z as int) {
                    assert(!room_for_n(&p0.next.ecs, ComponentKind::Debug, needed(&p0, input, ComponentKind::Debug)));
                } else if !room_for_n(&p0.next.ecs, ComponentKind::SpriteAnims, n_z + n_a) {
                    assert(!room_for_n(&p0.next.ecs, ComponentKind::SpriteAnims, needed(&p0, input, ComponentKind::SpriteAnims)));
                } else {
                    assert(!room_for_n(&p0.next.ecs, ComponentKind::Follow, needed(&p0, input, ComponentKind::Follow)));
                }
            }
        }
    }
    if !fits {
        return Err(FrameError::TooManyEntities);
    }
    if t {
        pool.next.terrain = spawn_terrain(&mut pool.next.ecs);
    }
    let ghost s1 = pool.next;
    if z {
        pool.next.zorb = spawn_zorb(zorb, &mut pool.next.ecs);
        proof {
            assert(pool.next.ecs.sprite_anims_view()[second_id(&p0)]@ =~= zorb_anims(zorb, zorb.anim_body_idle));
        }
    }
    let ghost s2 = pool.next;
    if c {
        let target = EntitySpawner::new().with_pos(input.left_mouse_world).spawn(&mut pool.next.ecs);
        let mut anims: SpriteAnims = Vec::new();
        anims.push(SpriteAnim::from_sprite(zorb.sprite, zorb.anim_body_walk));
        anims.push(SpriteAnim::from_sprite(zorb.sprite, zorb.anim_face_cute));
        assert(anims@ =~= zorb_anims(zorb, zorb.anim_body_walk));
        pool.next.ecs.overwrite_sprite_anims_for(zid, anims);
        pool.next.ecs.overwrite_follow_for(zid, Follow { stop_after_arriving: true, target_entity: target });
    }
    proof {
        assert(pool.next.ecs.pos_view() =~= input_pos(&p0, input));
        assert(pool.next.ecs.follow_view() =~= input_follow(&p0, input));
        assert(pool.next.ecs.debug_view() =~= input_debug(&p0, input));
        assert(anim_views(&pool.next.ecs) =~= input_anims(&p0, input, zorb));
    }
    Ok(())
}

impl Ecs {
    /// Runs the systems of one frame on this world (`next`), reading `prev`,
    /// in order: follow, terrain, animations, debug boxes. The first system
    /// that fails ends the frame with its error:
    /// - follow fails when a follower or its target lacks what it needs;
    /// - terrain fails when the terrain's tileset cannot be resolved;
    /// - animations fail when an entity cannot be animated.
    pub fn update_and_render<L: ResourceLoader<SpriteMap>>(
        &mut self,
        prev: &Ecs,
        sheets: &ResourceManager<SpriteMap, L>,
        terrain: &TerrainResourceIds,
        now_ms: u64,
        delta_ms: u64,
    ) -> (r: Result<FrameDraws, FrameError>)
        requires
            prev.wf(),
            old(self).wf(),
        ensures
            final(self).wf(),
            final(self).num_entities() == old(self).num_entities(),
            (r matches Err(FrameError::BrokenFollow)) <==> !followers_ready_in(prev, old(self).pos_view(), old(self).follow_view()),
            (r matches Err(FrameError::BadTileset)) <==> followers_ready_in(prev, old(self).pos_view(), old(self).follow_view())
                && !terrain_ok(sheets.cache(), prev, *terrain),
            (r matches Err(FrameError::Draw(_))) <==> followers_ready_in(prev, old(self).pos_view(), old(self).follow_view())
                && terrain_ok(sheets.cache(), prev, *terrain)
                && !all_entities_ok(sheets.cache(), prev, anim_views(old(self)), now_ms),
            (r is Ok) <==> followers_ready_in(prev, old(self).pos_view(), old(self).follow_view())
                && terrain_ok(sheets.cache(), prev, *terrain)
                && all_entities_ok(sheets.cache(), prev, anim_views(old(self)), now_ms),
            r matches Ok(d) ==> {
                &&& final(self).pos_view() == followed_pos(prev, old(self).pos_view(), delta_ms)
                &&& final(self).follow_view() == followed_follow(prev, old(self).follow_view(), delta_ms)
                &&& anim_views(final(self)) == animated_all(sheets.cache(), prev, anim_views(old(self)), now_ms)
                &&& final(self).debug_view() == old(self).debug_view()
                &&& final(self).terrain_view() == old(self).terrain_view()
                &&& d.tiles@ == tile_draws(prev, resolved_tileset(sheets.cache(), *terrain), prev.terrain_order(), prev.terrain_order().len() as int)
                &&& d.cels@ == system_draws(sheets.cache(), prev, anim_views(old(self)), prev.sprite_anims_order(), now_ms, prev.sprite_anims_order().len() as int)
                &&& d.boxes@ == boxes_of(prev, prev.pos_items(), prev.pos_items().len() as int)
            },
    {
        let ghost start = *self;
        if !followers_ready(prev, self) {
            return Err(FrameError::BrokenFollow);
        }
        follow_system(delta_ms, prev, self);
        proof {
            assert(self.pos_view() =~= followed_pos(prev, start.pos_view(), delta_ms));
            assert(self.follow_view() =~= followed_follow(prev, start.follow_view(), delta_ms));
            assert(anim_views(self) == anim_views(&start));
        }
        let ghost after_follow = *self;

        let mut tiles: Vec<TileDraw> = Vec::new();
        let terrains = prev.terrain_iter();
        if terrains.len() > 0 {
            let tileset = match terrain_tileset(terrain, sheets) {
                Some(t) => t,
                None => return Err(FrameError::BadTileset),
            };
            let mut i: usize = 0;
            while i < terrains.len()
                invariant
                    prev.wf(),
                    self.wf(),
                    *self == after_follow,
                    start == *old(self),
                    self.num_entities() == start.num_entities(),
                    followers_ready_in(prev, start.pos_view(), start.follow_view()),
                    tileset == resolved_tileset(sheets.cache(), *terrain),
                    tileset.rect.x + 11 * tileset.grid_size <= u16::MAX,
                    tileset.rect.y + 3 * tileset.grid_size <= u16::MAX,
                    terrains@ == prev.terrain_order(),
                    terrains@.len() == prev.count(ComponentKind::Terrain),
                    crate::ecs::lists_ids(terrains@, prev.terrain_view().dom()),
                    i <= terrains@.len(),
                    forall|j: int| 0 <= j < i ==> prev.terrain_view()[#[trigger] terrains@[j]].tiles.wf(),
                    tiles@ == tile_draws(prev, tileset, terrains@, i as int),
                decreases terrains@.len() - i,
            {
                let e = terrains[i];
                assert(prev.terrain_view().dom().contains(e));
                let t = prev.terrain_for_unchecked(e);
                if !t.tiles.is_wf() {
                    assert(!prev.terrain_view()[e].tiles.wf());
                    assert(prev.count(ComponentKind::Terrain) > 0);
                    assert(!terrain_ok(sheets.cache(), prev, *terrain));
                    return Err(FrameError::BadTileset);
                }
                let mut more = update_and_render_terrain(t, &tileset);
                tiles.append(&mut more);
                i = i + 1;
            }
            proof {
                assert forall|e: usize| #[trigger] prev.terrain_view().contains_key(e) implies prev.terrain_view()[e].tiles.wf() by {
                    let j = choose|j: int| 0 <= j < terrains@.len() && #[trigger] terrains@[j] == e;
                }
            }
        }
        let cels = match update_and_render_animations(now_ms, sheets, prev, self) {
            Ok(c) => c,
            Err(e) => return Err(FrameError::Draw(e)),
        };
        let boxes = debug_boxes(prev);
        Ok(FrameDraws { tiles, cels, boxes })
    }
}

/// One frame of the game. When the player asks to quit, nothing changes and
/// the result is `None`. Otherwise the input is applied to `next` (see
/// `apply_input`), the systems run on `next` reading `prev` (see
/// `Ecs::update_and_render`), and on success `prev` becomes a copy of `next`
/// and the result is what to draw. A failing step ends the frame with its
/// error; `prev` is then untouched, and `next` keeps what the steps before it
/// did.
pub fn update_and_render<L: ResourceLoader<SpriteMap>>(
    pool: &mut MemoryPool,
    terrain: &TerrainResourceIds,
    zorb: &ZorbResourceIds,
    sheets: &ResourceManager<SpriteMap, L>,
    input: &FrameInput,
    now_ms: u64,
    delta_ms: u64,
) -> (r: Result<Option<FrameDraws>, FrameError>)
    requires
        old(pool).prev.ecs.wf(),
        old(pool).next.ecs.wf(),
    ensures
        final(pool).next.ecs.wf(),
        r is Err ==> final(pool).prev == old(pool).prev,
        input.quit || input.escape_down ==> (r matches Ok(None)) && *final(pool) == *old(pool),
        !(input.quit || input.escape_down) ==> frame_outcome(old(pool), final(pool), r, terrain, zorb, sheets.cache(), input, now_ms, delta_ms),
{
    if input.quit || input.escape_down {
        return Ok(None);
    }
    let ghost p0 = *pool;
    match apply_input(pool, zorb, input) {
        Ok(()) => {},
        Err(e) => return Err(e),
    }
    let ghost n1 = pool.next;
    let out = pool.next.ecs.update_and_render(&pool.prev.ecs, sheets, terrain, now_ms, delta_ms);
    match out {
        Ok(d) => {
            pool.finish_frame();
            Ok(Some(d))
        },
        Err(e) => Err(e),
    }
}

/// What a frame that does not quit does, from pool `p` to pool `q` with
/// result `r`: it fails with `TooManyEntities` exactly when the input does not
/// fit (and then changes nothing); otherwise, with `next` after the input as
/// `input_applied` states, it fails with the error of the first system that
/// fails, and succeeds when none does, with `next` as the systems leave it,
/// `prev` a copy of it, and the draws of the frame.
pub open spec fn frame_outcome(
    p: &MemoryPool,
    q: &MemoryPool,
    r: Result<Option<FrameDraws>, FrameError>,
    terrain: &TerrainResourceIds,
    zorb: &ZorbResourceIds,
    cache: Seq<SpriteMap>,
    input: &FrameInput,
    now_ms: u64,
    delta_ms: u64,
) -> bool {
    let prev = &p.prev.ecs;
    let pos1 = input_pos(p, input);
    let follow1 = input_follow(p, input);
    let anims1 = input_anims(p, input, zorb);
    let ready = followers_ready_in(prev, pos1, follow1);
    let drawable = terrain_ok(cache, prev, *terrain);
    let animatable = all_entities_ok(cache, prev, anims1, now_ms);
    &&& !(r matches Ok(None))
    &&& (r matches Err(FrameError::TooManyEntities)) <==> !input_fits(p, input)
    &&& !input_fits(p, input) ==> *q == *p
    &&& input_fits(p, input) ==> {
        &&& (r matches Err(FrameError::BrokenFollow)) <==> !ready
        &&& (r matches Err(FrameError::BadTileset)) <==> ready && !drawable
        &&& (r matches Err(FrameError::Draw(_))) <==> ready && drawable && !animatable
        &&& (r matches Ok(Some(_))) <==> ready && drawable && animatable
        &&& r matches Ok(Some(d)) ==> {
            &&& q.next.ecs.num_entities() == p.next.ecs.num_entities() + needed(p, input, ComponentKind::Pos)
            &&& q.next.ecs.pos_view() == followed_pos(prev, pos1, delta_ms)
            &&& q.next.ecs.follow_view() == followed_follow(prev, follow1, delta_ms)
            &&& anim_views(&q.next.ecs) == animated_all(cache, prev, anims1, now_ms)
            &&& q.next.ecs.debug_view() == input_debug(p, input)
            &&& q.next.terrain == (if spawns_terrain(p) {
                new_terrain_id(p)
            } else {
                p.next.terrain
            })
            &&& q.next.zorb == (if spawns_zorb(p, input) {
                second_id(p)
            } else {
                p.next.zorb
            })
            &&& same_world(&q.prev.ecs, &q.next.ecs)
            &&& q.prev.zorb == q.next.zorb
            &&& q.prev.terrain == q.next.terrain
            &&& d.tiles@ == tile_draws(prev, resolved_tileset(cache, *terrain), prev.terrain_order(), prev.terrain_order().len() as int)
            &&& d.cels@ == system_draws(cache, prev, anims1, prev.sprite_anims_order(), now_ms, prev.sprite_anims_order().len() as int)
            &&& d.boxes@ == boxes_of(prev, prev.pos_items(), prev.pos_items().len() as int)
        }
    }
}

} // verus!
