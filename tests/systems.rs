use engine::animation::{Animation, Keyframe};
use engine::components::{Follow, Pos, SpriteAnim, Tile};
use engine::game::FrameError;
use engine::draw::{update_and_render_animations, update_and_render_terrain, DrawError};
use engine::ecs::{Ecs, EntitySpawner};
use engine::manager::{ResourceError, ResourceLoader, ResourceManager};
use engine::spawnables::{generate, load_terrain_resources, load_zorb_resources, spawn_terrain, spawn_zorb, ZorbResourceIds};
use engine::sprite_map::{Rect, ResolvedTileset, SpriteMap, SpriteMapAnimation, SpriteMapCel, SpriteMapIdMarker, Tileset};
use engine::tile_map::NeighborMask;
use engine::types::Id;
use engine::game::update_and_render;
use engine::world::MemoryPool;

struct Sheets;

fn sheet(id: u32) -> SpriteMap {
    let cels = vec![
        SpriteMapCel::new(Rect { x: 0, y: 0, w: 8, h: 8 }, Rect { x: 1, y: 2, w: 8, h: 8 }),
        SpriteMapCel::new(Rect { x: 8, y: 0, w: 8, h: 8 }, Rect { x: 0, y: 0, w: 4, h: 4 }),
        SpriteMapCel::new(Rect { x: 0, y: 0, w: 96, h: 32 }, Rect { x: 0, y: 0, w: 96, h: 32 }),
    ];
    let mk = |frames: Vec<(u16, Vec<u16>)>| SpriteMapAnimation {
        keyframes: Animation::new(frames.into_iter().map(|(d, v)| Keyframe::new(d, v)).collect()),
    };
    SpriteMap::new_in(
        Id::<SpriteMapIdMarker>::new(id),
        cels,
        vec![
            ("body:idle".to_string(), mk(vec![(100, vec![0])])),
            ("body:walk".to_string(), mk(vec![(50, vec![0, 1]), (50, vec![1])])),
            ("face:cute".to_string(), mk(vec![(100, vec![1])])),
        ],
        vec![("mask".to_string(), Tileset { grid_size: 8, cel: 2 })],
    )
}

impl ResourceLoader<SpriteMap> for Sheets {
    fn load(&self, key: &str) -> Result<SpriteMap, ResourceError> {
        match key {
            "zorb" => Ok(sheet(0)),
            "tiles/mask" => Ok(sheet(1)),
            _ => Err(ResourceError::LoadFailed),
        }
    }
}

#[test]
fn resources_resolve_by_name() {
    let mut m = ResourceManager::new(Sheets);
    let zorb = load_zorb_resources(&mut m).unwrap();
    assert_eq!(zorb.sprite.full(), 0);
    assert_eq!(zorb.anim_body_idle.lo(), 0);
    assert_eq!(zorb.anim_body_walk.lo(), 1);
    assert_eq!(zorb.anim_face_cute.lo(), 2);
    let terrain = load_terrain_resources(&mut m).unwrap();
    assert_eq!(terrain.sprite.full(), 1);
    assert_eq!(terrain.tileset.full(), 0x10000);
}

#[test]
fn generated_terrain_has_walls() {
    let t = generate();
    assert_eq!(*t.tiles.get(1, 1), Tile(true));
    assert_eq!(*t.tiles.get(25, 40), Tile(true));
    assert_eq!(*t.tiles.get(50, 50), Tile(true));
    assert_eq!(*t.tiles.get(2, 2), Tile(false));
    assert_eq!(*t.tiles.get(51, 1), Tile(false));
}

#[test]
fn spawned_zorb_and_terrain() {
    let mut ecs = Ecs::new();
    let t = spawn_terrain(&mut ecs);
    let ids = ZorbResourceIds {
        sprite: Id::new(0),
        anim_body_idle: Id::new_split(0, 0),
        anim_body_walk: Id::new_split(0, 1),
        anim_face_cute: Id::new_split(0, 2),
    };
    let z = spawn_zorb(&ids, &mut ecs);
    assert_eq!((t, z), (1, 2));
    assert_eq!(ecs.pos_for(t), Some(Pos::origin()));
    assert_eq!(ecs.pos_for(z), Some(Pos::new(400, 400)));
    assert_eq!(ecs.sprite_anims_for_unchecked(z).len(), 2);
    assert!(ecs.debug_for(z).unwrap().box_color.is_some());
}

#[test]
fn animation_system_steps_cursors_and_lists_cels() {
    let mut m = ResourceManager::new(Sheets);
    let ids = load_zorb_resources(&mut m).unwrap();
    let mut prev = Ecs::new();
    let e = EntitySpawner::new()
        .with_pos(Pos::new(10, 20))
        .with_sprite_anims(vec![
            SpriteAnim::from_sprite(ids.sprite, ids.anim_body_walk),
            SpriteAnim::from_sprite(ids.sprite, ids.anim_face_cute),
        ])
        .spawn(&mut prev);
    let mut next = prev.snapshot();
    let draws = update_and_render_animations(1000, &m, &prev, &mut next).unwrap();
    // walk shows cels 0 and 1, the face cel 1
    assert_eq!(draws.len(), 3);
    assert_eq!((draws[0].x, draws[0].y, draws[0].w), (11, 22, 8));
    assert_eq!(draws[0].tex_rect, Rect { x: 0, y: 0, w: 8, h: 8 });
    assert_eq!((draws[1].x, draws[1].y, draws[1].w), (10, 20, 4));
    assert_eq!(draws[2].tex_rect, Rect { x: 8, y: 0, w: 8, h: 8 });
    let anims = next.sprite_anims_for_unchecked(e);
    assert!(anims[0].cursor.playing);
    assert_eq!(anims[0].cursor.start_ms, 1000);
    // a later frame reads the cursors of `next`
    let prev2 = next.snapshot();
    let draws2 = update_and_render_animations(1060, &m, &prev2, &mut next).unwrap();
    assert_eq!(draws2.len(), 2);
    assert_eq!(next.sprite_anims_for_unchecked(e)[0].cursor.current_frame, 1);
}

#[test]
fn animation_system_rejects_unknown_sprites() {
    let m = ResourceManager::new(Sheets);
    let mut prev = Ecs::new();
    EntitySpawner::new()
        .with_pos(Pos::new(0, 0))
        .with_sprite_anims(vec![SpriteAnim::from_sprite(Id::new(5), Id::new(0))])
        .spawn(&mut prev);
    let mut next = prev.snapshot();
    assert_eq!(update_and_render_animations(0, &m, &prev, &mut next).err(), Some(DrawError::UnknownSprite));
    let mut no_pos = Ecs::new();
    EntitySpawner::new().with_sprite_anims(vec![]).spawn(&mut no_pos);
    let mut next = no_pos.snapshot();
    assert_eq!(update_and_render_animations(0, &m, &no_pos, &mut next).err(), Some(DrawError::MissingComponent));
}

#[test]
fn terrain_system_draws_each_solid_tile() {
    let mut terrain = engine::components::Terrain::empty();
    terrain.tiles.set(3, 3, Tile(true));
    terrain.tiles.set(3, 4, Tile(true));
    let tileset = ResolvedTileset { rect: Rect { x: 0, y: 0, w: 96, h: 32 }, grid_size: 8 };
    let draws = update_and_render_terrain(&terrain, &tileset);
    assert_eq!(draws.len(), 2);
    assert_eq!((draws[0].x, draws[0].y), (3, 3));
    // (3, 4) lies below (3, 3) in the mask's sense: its neighbour at dy = +1
    let m0 = terrain.tiles.filter_neighbors(3, 3, |t: &Tile| t.0);
    assert_eq!(m0, NeighborMask(NeighborMask::BOT));
    assert_eq!(draws[0].tex_rect, tileset.tex_rect_for(m0));
    assert_eq!(draws[0].tex_rect, Rect { x: 0, y: 0, w: 8, h: 8 });
    assert_eq!(draws[1].tex_rect, Rect { x: 0, y: 16, w: 8, h: 8 });
    let level = generate();
    let all = update_and_render_terrain(&level, &tileset);
    assert_eq!(all.len(), 291);
}

fn no_input() -> engine::game::FrameInput {
    engine::game::FrameInput {
        quit: false,
        escape_down: false,
        right_mouse_down: false,
        left_mouse_down: false,
        left_mouse_world: Pos::origin(),
    }
}

#[test]
fn game_frames_spawn_and_follow() {
    let mut m = ResourceManager::new(Sheets);
    let zorb = load_zorb_resources(&mut m).unwrap();
    let terrain = load_terrain_resources(&mut m).unwrap();
    let mut pool = MemoryPool::new();

    let mut quit = no_input();
    quit.quit = true;
    assert!(update_and_render(&mut pool, &terrain, &zorb, &m, &quit, 0, 16).unwrap().is_none());
    assert_eq!(pool.next.terrain, 0);

    // first frame: the terrain appears
    let out = update_and_render(&mut pool, &terrain, &zorb, &m, &no_input(), 0, 16).unwrap().unwrap();
    assert_eq!(pool.prev.terrain, 1);
    assert!(out.tiles.is_empty());

    // right click: the zorb appears
    let mut right = no_input();
    right.right_mouse_down = true;
    let out = update_and_render(&mut pool, &terrain, &zorb, &m, &right, 16, 16).unwrap().unwrap();
    let z = pool.prev.zorb;
    assert_eq!(z, 2);
    assert_eq!(out.tiles.len(), 291);
    assert!(out.boxes.is_empty());

    // left click: the zorb walks to the click
    let mut left = no_input();
    left.left_mouse_down = true;
    left.left_mouse_world = Pos::new(400, 700);
    let out = update_and_render(&mut pool, &terrain, &zorb, &m, &left, 32, 20).unwrap().unwrap();
    assert_eq!(out.boxes.len(), 1);
    assert!(pool.prev.ecs.follow_for(z).is_some());
    assert_eq!(pool.prev.ecs.sprite_anims_for_unchecked(z)[0].anim.lo(), 1);
    for f in 0..100u64 {
        update_and_render(&mut pool, &terrain, &zorb, &m, &no_input(), 48 + 16 * f, 20).unwrap();
    }
    assert_eq!(pool.prev.ecs.pos_for(z), Some(Pos::new(400, 700)));
    assert!(pool.prev.ecs.follow_for(z).is_none());
}

#[test]
fn animation_errors_name_the_problem() {
    let mut m = ResourceManager::new(Sheets);
    load_zorb_resources(&mut m).unwrap();
    let mut prev = Ecs::new();
    EntitySpawner::new()
        .with_pos(Pos::origin())
        .with_sprite_anims(vec![SpriteAnim::from_sprite(Id::new(0), Id::new_split(7, 0))])
        .spawn(&mut prev);
    let mut next = prev.snapshot();
    assert_eq!(update_and_render_animations(0, &m, &prev, &mut next).err(), Some(DrawError::UnknownAnimation));
}

struct BadCels;

impl ResourceLoader<SpriteMap> for BadCels {
    fn load(&self, _key: &str) -> Result<SpriteMap, ResourceError> {
        let anim = SpriteMapAnimation { keyframes: Animation::new(vec![Keyframe::new(10, vec![9u16])]) };
        Ok(SpriteMap::new_in(Id::new(0), vec![], vec![("a".to_string(), anim)], vec![]))
    }
}

#[test]
fn animation_naming_a_missing_cel_fails() {
    let mut m = ResourceManager::new(BadCels);
    let sprite = m.load("x").unwrap();
    let anim = m.get(sprite).get_animation_id("a");
    let mut prev = Ecs::new();
    EntitySpawner::new()
        .with_pos(Pos::origin())
        .with_sprite_anims(vec![SpriteAnim::from_sprite(sprite, anim)])
        .spawn(&mut prev);
    let mut next = prev.snapshot();
    assert_eq!(update_and_render_animations(0, &m, &prev, &mut next).err(), Some(DrawError::UnknownCel));
}

#[test]
fn game_frame_errors() {
    let mut m = ResourceManager::new(Sheets);
    let zorb = load_zorb_resources(&mut m).unwrap();
    let terrain = load_terrain_resources(&mut m).unwrap();

    // no room for the terrain
    let mut pool = MemoryPool::new();
    EntitySpawner::new().with_terrain(generate()).spawn(&mut pool.next.ecs);
    assert_eq!(
        update_and_render(&mut pool, &terrain, &zorb, &m, &no_input(), 0, 16).err(),
        Some(FrameError::TooManyEntities)
    );

    // a follower whose target has no position
    let mut pool = MemoryPool::new();
    let target = EntitySpawner::new().spawn(&mut pool.next.ecs);
    EntitySpawner::new()
        .with_pos(Pos::origin())
        .with_follow(Follow { stop_after_arriving: true, target_entity: target })
        .spawn(&mut pool.next.ecs);
    pool.finish_frame();
    assert_eq!(
        update_and_render(&mut pool, &terrain, &zorb, &m, &no_input(), 0, 16).err(),
        Some(FrameError::BrokenFollow)
    );

    // a terrain whose tileset is not loaded
    let mut pool = MemoryPool::new();
    let missing = engine::spawnables::TerrainResourceIds { sprite: Id::new(9), tileset: Id::new(0) };
    update_and_render(&mut pool, &missing, &zorb, &m, &no_input(), 0, 16).unwrap();
    assert_eq!(
        update_and_render(&mut pool, &missing, &zorb, &m, &no_input(), 16, 16).err(),
        Some(FrameError::BadTileset)
    );

    // an animation of a sprite map that is not loaded
    let mut pool = MemoryPool::new();
    EntitySpawner::new()
        .with_pos(Pos::origin())
        .with_sprite_anims(vec![SpriteAnim::from_sprite(Id::new(9), Id::new(0))])
        .spawn(&mut pool.next.ecs);
    pool.finish_frame();
    assert_eq!(
        update_and_render(&mut pool, &terrain, &zorb, &m, &no_input(), 0, 16).err(),
        Some(FrameError::Draw(DrawError::UnknownSprite))
    );
}

#[test]
fn sheet_without_the_tileset_fails_after_loading() {
    let mut m = ResourceManager::new(BadCels);
    assert_eq!(load_terrain_resources(&mut m).err(), Some(ResourceError::LoadFailed));
    assert_eq!(m.len(), 1);
    assert_eq!(load_zorb_resources(&mut m).err(), Some(ResourceError::LoadFailed));
    assert_eq!(m.len(), 2);
}

#[test]
fn input_that_does_not_fit_changes_nothing() {
    let mut m = ResourceManager::new(Sheets);
    let zorb = load_zorb_resources(&mut m).unwrap();
    let mut pool = MemoryPool::new();
    EntitySpawner::new().with_terrain(generate()).spawn(&mut pool.next.ecs);
    let before = pool.next.ecs.num_entities_exec();
    assert_eq!(engine::game::apply_input(&mut pool, &zorb, &no_input()), Err(FrameError::TooManyEntities));
    assert_eq!(pool.next.ecs.num_entities_exec(), before);
    assert_eq!(pool.next.terrain, 0);
}
