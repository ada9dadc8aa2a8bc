use vstd::prelude::*;

use crate::animation::AnimationCursor;
use crate::components::{Color, ComponentKind, DebugFlags, Pos, SpriteAnim, SpriteAnims, Terrain, Tile};
use crate::ecs::{lemma_sentinel, Ecs, EntitySpawner, MAX_ENTITIES, SENTINEL};
use crate::manager::{ResourceError, ResourceLoader, ResourceManager};
use crate::sprite_map::{SpriteMap, SpriteMapAnimation, SpriteMapIdMarker, Tileset};
use crate::tile_map::TileMap;
use crate::types::Id;

verus! {

/// The resources that the terrain is drawn with.
#[derive(Clone, Copy)]
pub struct TerrainResourceIds {
    pub sprite: Id<SpriteMapIdMarker>,
    pub tileset: Id<Tileset>,
}

/// The resources that the zorb is drawn with.
#[derive(Clone, Copy)]
pub struct ZorbResourceIds {
    pub sprite: Id<SpriteMapIdMarker>,
    pub anim_body_idle: Id<SpriteMapAnimation>,
    pub anim_body_walk: Id<SpriteMapAnimation>,
    pub anim_face_cute: Id<SpriteMapAnimation>,
}

/// Whether the generated terrain is solid at (`x`, `y`): the border of the
/// square from 1 to 50 on each axis, and its two middle lines at 25.
pub open spec fn generated_solid(x: int, y: int) -> bool {
    ||| 1 <= x <= 50 && (y == 1 || y == 25 || y == 50)
    ||| 1 <= y <= 50 && (x == 1 || x == 25 || x == 50)
}

/// The terrain of the level: a square room divided into four by walls.
pub fn generate() -> (r: Terrain)
    ensures
        r.tiles.wf(),
        forall|x: int, y: int|
            TileMap::<Tile>::in_padded(x, y) ==> #[trigger] r.tiles.at(x, y) == Tile(generated_solid(x, y)),
{
    let mut terrain = Terrain::empty();
    let mut v: usize = 1;
    while v < 51
        invariant
            1 <= v <= 51,
            terrain.tiles.wf(),
            forall|x: int, y: int|
                TileMap::<Tile>::in_padded(x, y) ==> #[trigger] terrain.tiles.at(x, y) == Tile(
                    (1 <= x < v && (y == 1 || y == 25 || y == 50)) || (1 <= y < v && (x == 1 || x
                        == 25 || x == 50)),
                ),
        decreases 51 - v,
    {
        terrain.tiles.set(v, 1, Tile(true));
        terrain.tiles.set(v, 50, Tile(true));
        terrain.tiles.set(1, v, Tile(true));
        terrain.tiles.set(50, v, Tile(true));
        terrain.tiles.set(25, v, Tile(true));
        terrain.tiles.set(v, 25, Tile(true));
        v = v + 1;
    }
    terrain
}

/// Spawns the terrain entity, at the origin, and returns its id.
pub fn spawn_terrain(ecs: &mut Ecs) -> (r: usize)
    requires
        old(ecs).wf(),
        old(ecs).num_entities() < MAX_ENTITIES,
        old(ecs).has_room(ComponentKind::Terrain),
    ensures
        final(ecs).wf(),
        r == old(ecs).num_entities(),
        r != SENTINEL,
        final(ecs).num_entities() == old(ecs).num_entities() + 1,
        final(ecs).pos_view() == old(ecs).pos_view().insert(r, Pos { x: 0, y: 0 }),
        final(ecs).terrain_view().dom() == old(ecs).terrain_view().dom().insert(r),
        forall|e: usize| #[trigger] old(ecs).terrain_view().contains_key(e) ==> final(ecs).terrain_view()[e]
            == old(ecs).terrain_view()[e],
        forall|x: int, y: int|
            TileMap::<Tile>::in_padded(x, y) ==> #[trigger] final(ecs).terrain_view()[r].tiles.at(x, y)
                == Tile(generated_solid(x, y)),
        final(ecs).follow_view() == old(ecs).follow_view(),
        final(ecs).debug_view() == old(ecs).debug_view(),
        final(ecs).sprite_anims_view() == old(ecs).sprite_anims_view(),
        final(ecs).count(ComponentKind::Pos) == old(ecs).count(ComponentKind::Pos) + 1,
        final(ecs).count(ComponentKind::Follow) == old(ecs).count(ComponentKind::Follow),
        final(ecs).count(ComponentKind::Debug) == old(ecs).count(ComponentKind::Debug),
        final(ecs).count(ComponentKind::SpriteAnims) == old(ecs).count(ComponentKind::SpriteAnims),
        final(ecs).count(ComponentKind::Terrain) == old(ecs).count(ComponentKind::Terrain) + 1,
{
    let terrain = generate();
    proof {
        lemma_sentinel(ecs, ecs.num_entities() as usize, ComponentKind::Terrain);
    }
    EntitySpawner::new().with_pos_default().with_terrain(terrain).spawn(ecs)
}

/// Where the zorb appears.
pub const ZORB_START: i32 = 400;

/// Spawns the zorb: idle body and cute face animations of its sprite map, at
/// (400, 400), with a red debugging box. Returns its id.
pub fn spawn_zorb(res: &ZorbResourceIds, ecs: &mut Ecs) -> (r: usize)
    requires
        old(ecs).wf(),
        old(ecs).num_entities() < MAX_ENTITIES,
        old(ecs).has_room(ComponentKind::SpriteAnims),
        old(ecs).has_room(ComponentKind::Debug),
    ensures
        final(ecs).wf(),
        r == old(ecs).num_entities(),
        r != SENTINEL,
        final(ecs).num_entities() == old(ecs).num_entities() + 1,
        final(ecs).pos_view() == old(ecs).pos_view().insert(r, Pos { x: ZORB_START, y: ZORB_START }),
        final(ecs).debug_view() == old(ecs).debug_view().insert(
            r,
            DebugFlags { box_color: Some(Color { r: 255, g: 0, b: 0, a: 255 }) },
        ),
        final(ecs).sprite_anims_view().dom() == old(ecs).sprite_anims_view().dom().insert(r),
        forall|e: usize| #[trigger] old(ecs).sprite_anims_view().contains_key(e) ==> final(ecs).sprite_anims_view()[e]
            == old(ecs).sprite_anims_view()[e],
        final(ecs).sprite_anims_view()[r]@.len() == 2,
        final(ecs).sprite_anims_view()[r]@[0].anim == res.anim_body_idle,
        final(ecs).sprite_anims_view()[r]@[1].anim == res.anim_face_cute,
        final(ecs).sprite_anims_view()[r]@[0].sprite == res.sprite,
        final(ecs).sprite_anims_view()[r]@[1].sprite == res.sprite,
        final(ecs).sprite_anims_view()[r]@[0].cursor == stopped_cursor(),
        final(ecs).sprite_anims_view()[r]@[1].cursor == stopped_cursor(),
        final(ecs).follow_view() == old(ecs).follow_view(),
        final(ecs).terrain_view() == old(ecs).terrain_view(),
        final(ecs).count(ComponentKind::Pos) == old(ecs).count(ComponentKind::Pos) + 1,
        final(ecs).count(ComponentKind::Follow) == old(ecs).count(ComponentKind::Follow),
        final(ecs).count(ComponentKind::Debug) == old(ecs).count(ComponentKind::Debug) + 1,
        final(ecs).count(ComponentKind::SpriteAnims) == old(ecs).count(ComponentKind::SpriteAnims) + 1,
        final(ecs).count(ComponentKind::Terrain) == old(ecs).count(ComponentKind::Terrain),
{
    proof {
        lemma_sentinel(ecs, ecs.num_entities() as usize, ComponentKind::SpriteAnims);
    }
    let mut anims: SpriteAnims = Vec::new();
    anims.push(SpriteAnim::from_sprite(res.sprite, res.anim_body_idle));
    anims.push(SpriteAnim::from_sprite(res.sprite, res.anim_face_cute));
    let flags = DebugFlags { box_color: Some(Color { r: 255, g: 0, b: 0, a: 255 }) };
    EntitySpawner::new().with_pos(Pos::new(ZORB_START, ZORB_START)).with_sprite_anims(anims).with_debug(
        flags,
    ).spawn(ecs)
}

/// Sprite map `s` has a tileset named `name`.
pub open spec fn has_tileset_named(s: SpriteMap, name: Seq<char>) -> bool {
    exists|i: int| 0 <= i < s.tileset_names().len() && #[trigger] s.tileset_names()[i]@ == name
}

/// Sprite map `s` has an animation named `name`.
pub open spec fn has_animation_named(s: SpriteMap, name: Seq<char>) -> bool {
    exists|i: int| 0 <= i < s.animation_names().len() && #[trigger] s.animation_names()[i]@ == name
}

/// Sprite map `s` has the animations of the zorb.
pub open spec fn has_zorb_animations(s: SpriteMap) -> bool {
    has_animation_named(s, "body:idle"@) && has_animation_named(s, "body:walk"@) && has_animation_named(
        s,
        "face:cute"@,
    )
}

/// The cursor of an animation that has not started.
pub open spec fn stopped_cursor() -> AnimationCursor {
    AnimationCursor { start_ms: 0, current_frame: 0, playing: false }
}

/// Loads the terrain's sprite map, `tiles/mask`, and finds its `mask`
/// tileset. Fails when the sprite map cannot be loaded or lacks the tileset.
pub fn load_terrain_resources<L: ResourceLoader<SpriteMap>>(res: &mut ResourceManager<SpriteMap, L>) -> (r:
    Result<TerrainResourceIds, ResourceError>)
    requires
        old(res).cache().len() < u32::MAX,
    ensures
        r matches Ok(ids) ==> ids.sprite.val < final(res).cache().len() && ({
            let s = final(res).cache()[ids.sprite.val as int];
            &&& ids.tileset.val / 0x10000 == s.id_spec()
            &&& ids.tileset.val % 0x10000 < s.tilesets().len()
            &&& s.tileset_names()[ids.tileset.val as int % 0x10000]@ == "mask"@
        }),
        final(res).cache().len() <= old(res).cache().len() + 1,
        final(res).cache().subrange(0, old(res).cache().len() as int) == old(res).cache(),
        final(res).cache().len() == old(res).cache().len() + 1 ==> ((r is Ok) <==> has_tileset_named(
            final(res).cache()[old(res).cache().len() as int],
            "mask"@,
        )),
        final(res).cache().len() == old(res).cache().len() ==> (r is Err),
{
    let sprite = match res.load("tiles/mask") {
        Ok(id) => id,
        Err(e) => {
            assert(res.cache().subrange(0, res.cache().len() as int) =~= res.cache());
            return Err(e);
        },
    };
    let sheet = res.get(sprite);
    if !sheet.has_tileset("mask") {
        return Err(ResourceError::LoadFailed);
    }
    let tileset = sheet.get_tileset_id("mask");
    Ok(TerrainResourceIds { sprite, tileset })
}

/// Loads the zorb's sprite map, `zorb`, and finds its `body:idle`,
/// `body:walk` and `face:cute` animations. Fails when the sprite map cannot
/// be loaded or lacks one of them.
pub fn load_zorb_resources<L: ResourceLoader<SpriteMap>>(res: &mut ResourceManager<SpriteMap, L>) -> (r:
    Result<ZorbResourceIds, ResourceError>)
    requires
        old(res).cache().len() < u32::MAX,
    ensures
        r matches Ok(ids) ==> ids.sprite.val < final(res).cache().len() && ({
            let s = final(res).cache()[ids.sprite.val as int];
            &&& s.animation_names()[ids.anim_body_idle.val as int % 0x10000]@ == "body:idle"@
            &&& s.animation_names()[ids.anim_body_walk.val as int % 0x10000]@ == "body:walk"@
            &&& s.animation_names()[ids.anim_face_cute.val as int % 0x10000]@ == "face:cute"@
            &&& ids.anim_body_idle.val / 0x10000 == s.id_spec()
            &&& ids.anim_body_walk.val / 0x10000 == s.id_spec()
            &&& ids.anim_face_cute.val / 0x10000 == s.id_spec()
            &&& ids.anim_body_idle.val % 0x10000 < s.animations().len()
            &&& ids.anim_body_walk.val % 0x10000 < s.animations().len()
            &&& ids.anim_face_cute.val % 0x10000 < s.animations().len()
        }),
        final(res).cache().len() <= old(res).cache().len() + 1,
        final(res).cache().subrange(0, old(res).cache().len() as int) == old(res).cache(),
        final(res).cache().len() == old(res).cache().len() + 1 ==> ((r is Ok) <==> has_zorb_animations(
            final(res).cache()[old(res).cache().len() as int],
        )),
        final(res).cache().len() == old(res).cache().len() ==> (r is Err),
{
    let sprite = match res.load("zorb") {
        Ok(id) => id,
        Err(e) => {
            assert(res.cache().subrange(0, res.cache().len() as int) =~= res.cache());
            return Err(e);
        },
    };
    let sheet = res.get(sprite);
    if !sheet.has_animation("body:idle") || !sheet.has_animation("body:walk") || !sheet.has_animation(
        "face:cute",
    ) {
        return Err(ResourceError::LoadFailed);
    }
    Ok(
        ZorbResourceIds {
            sprite,
            anim_body_idle: sheet.get_animation_id("body:idle"),
            anim_body_walk: sheet.get_animation_id("body:walk"),
            anim_face_cute: sheet.get_animation_id("face:cute"),
        },
    )
}

} // verus!
