use engine::components::{Color, ComponentKind, DebugFlags, Follow, Pos, SpriteAnim, Terrain, Tile};
use engine::ecs::{Ecs, EntitySpawner, SENTINEL};
use engine::navigation;
use engine::sprite_map::{SpriteMapAnimation, SpriteMapIdMarker};
use engine::types::{Id, Reset};
use engine::world::MemoryPool;

fn sorted_ids<T: Copy>(items: &[(usize, T)]) -> Vec<usize> {
    let mut v: Vec<usize> = items.iter().map(|p| p.0).collect();
    v.sort();
    v
}

#[test]
fn entity_without_a_component_reads_none() {
    let mut ecs = Ecs::new();
    let a = EntitySpawner::new().with_pos(Pos::new(1, 2)).spawn(&mut ecs);
    let b = EntitySpawner::new().spawn(&mut ecs);
    assert_eq!(a, 1);
    assert_eq!(b, 2);
    assert_eq!(ecs.num_entities_exec(), 3);
    assert_eq!(ecs.pos_for(a), Some(Pos::new(1, 2)));
    assert_eq!(ecs.pos_for(b), None);
    assert_eq!(ecs.follow_for(a), None);
    assert!(ecs.terrain_for(a).is_none());
    assert!(ecs.sprite_anims_for(b).is_none());
    assert!(ecs.pos_iter().iter().all(|p| p.0 != SENTINEL));
}

#[test]
fn swap_remove_relinks_the_moved_entity() {
    let mut ecs = Ecs::new();
    let e1 = EntitySpawner::new().with_pos(Pos::new(1, 1)).spawn(&mut ecs);
    let e2 = EntitySpawner::new().with_pos(Pos::new(2, 2)).spawn(&mut ecs);
    let e3 = EntitySpawner::new().with_pos(Pos::new(3, 3)).spawn(&mut ecs);
    let e4 = EntitySpawner::new().with_pos(Pos::new(4, 4)).spawn(&mut ecs);
    assert_eq!(ecs.unset_pos_for(e2), Pos::new(2, 2));
    assert_eq!(ecs.pos_for(e2), None);
    assert_eq!(ecs.pos_for(e4), Some(Pos::new(4, 4)));
    assert_eq!(sorted_ids(&ecs.pos_iter()), vec![e1, e3, e4]);
    assert_eq!(ecs.unset_pos_for(e4), Pos::new(4, 4));
    assert_eq!(sorted_ids(&ecs.pos_iter()), vec![e1, e3]);
    ecs.set_pos_for(e3, Pos::new(30, 30));
    assert_eq!(ecs.pos_for_unchecked(e3), Pos::new(30, 30));
    assert_eq!(ecs.pos_for(e1), Some(Pos::new(1, 1)));
    ecs.overwrite_pos_for(e2, Pos::new(22, 22));
    assert_eq!(ecs.pos_for(e2), Some(Pos::new(22, 22)));
    for (e, p) in ecs.pos_iter() {
        assert_eq!(ecs.pos_for(e), Some(p));
    }
    assert_eq!(sorted_ids(&ecs.pos_iter()), vec![e1, e2, e3]);
}

#[test]
fn removing_the_last_component_needs_no_relink() {
    let mut ecs = Ecs::new();
    let e1 = EntitySpawner::new().with_follow(Follow { stop_after_arriving: true, target_entity: 5 }).spawn(&mut ecs);
    assert_eq!(ecs.unset_follow_for(e1).target_entity, 5);
    assert!(ecs.follow_iter().is_empty());
    assert!(ecs.room_for(ComponentKind::Follow));
}

#[test]
fn spawner_attaches_every_given_component() {
    let mut ecs = Ecs::new();
    let anim = SpriteAnim::from_sprite(Id::<SpriteMapIdMarker>::new(1), Id::<SpriteMapAnimation>::new(0x10002));
    let mut terrain = Terrain::empty();
    terrain.tiles.set(2, 3, Tile(true));
    let flags = DebugFlags { box_color: Some(Color { r: 255, g: 0, b: 0, a: 255 }) };
    let e = EntitySpawner::new()
        .with_pos_default()
        .with_debug(flags)
        .with_sprite_anims(vec![anim])
        .with_terrain(terrain)
        .spawn(&mut ecs);
    assert_eq!(ecs.pos_for(e), Some(Pos::origin()));
    assert_eq!(ecs.debug_for(e), Some(flags));
    assert_eq!(ecs.debug_for_unchecked(e).box_color.unwrap().r, 255);
    assert_eq!(ecs.sprite_anims_for(e).unwrap()[0].anim.full(), 0x10002);
    assert!(!ecs.sprite_anims_for_unchecked(e)[0].cursor.playing);
    assert_eq!(*ecs.terrain_for_unchecked(e).tiles.get(2, 3), Tile(true));
    assert_eq!(ecs.terrain_iter(), vec![e]);
    assert_eq!(ecs.sprite_anims_iter(), vec![e]);
    let anims = ecs.unset_sprite_anims_for(e);
    assert_eq!(anims.len(), 1);
    assert!(ecs.sprite_anims_iter().is_empty());
}

#[test]
fn reset_and_snapshot() {
    let mut ecs = Ecs::new();
    let a = EntitySpawner::new().with_pos(Pos::new(5, 6)).spawn(&mut ecs);
    let copy = ecs.snapshot();
    ecs.set_pos_for(a, Pos::new(7, 8));
    assert_eq!(copy.pos_for(a), Some(Pos::new(5, 6)));
    ecs.reset();
    assert_eq!(ecs.num_entities_exec(), 1);
    assert!(ecs.pos_iter().is_empty());
    let b = EntitySpawner::new().spawn(&mut ecs);
    assert_eq!(b, 1);
    assert_eq!(ecs.pos_for(b), None);
}

#[test]
fn follower_moves_then_arrives_and_stops() {
    let mut pool = MemoryPool::new();
    let b = EntitySpawner::new().with_pos(Pos::new(100, 0)).spawn(&mut pool.next.ecs);
    let a = EntitySpawner::new()
        .with_pos(Pos::new(0, 0))
        .with_follow(Follow { stop_after_arriving: true, target_entity: b })
        .spawn(&mut pool.next.ecs);
    pool.finish_frame();

    // 20 ms at 500 units per second: 10 units
    navigation::update_and_render(20, &pool.prev.ecs, &mut pool.next.ecs);
    pool.finish_frame();
    assert_eq!(pool.prev.ecs.pos_for(a), Some(Pos::new(10, 0)));
    assert!(pool.prev.ecs.follow_for(a).is_some());

    let mut frames = 0;
    while pool.prev.ecs.follow_for(a).is_some() {
        navigation::update_and_render(20, &pool.prev.ecs, &mut pool.next.ecs);
        pool.finish_frame();
        frames += 1;
        assert!(frames < 100);
    }
    assert_eq!(pool.prev.ecs.pos_for(a), Some(Pos::new(100, 0)));
    assert_eq!(pool.prev.ecs.pos_for(b), Some(Pos::new(100, 0)));
    // stays put once arrived
    for _ in 0..3 {
        navigation::update_and_render(20, &pool.prev.ecs, &mut pool.next.ecs);
        pool.finish_frame();
    }
    assert_eq!(pool.prev.ecs.pos_for(a), Some(Pos::new(100, 0)));
    assert!(pool.prev.ecs.follow_iter().is_empty());
}

#[test]
fn follow_step_formula() {
    assert_eq!(navigation::follow_step(Pos::new(0, 0), Pos::new(100, 0), 10), (Pos::new(10, 0), false));
    assert_eq!(navigation::follow_step(Pos::new(0, 0), Pos::new(30, 40), 10), (Pos::new(6, 8), false));
    assert_eq!(navigation::follow_step(Pos::new(0, 0), Pos::new(-30, -40), 10), (Pos::new(-6, -8), false));
    // within one and a half frames of travel: snap onto the target
    assert_eq!(navigation::follow_step(Pos::new(0, 0), Pos::new(14, 0), 10), (Pos::new(14, 0), true));
    assert_eq!(navigation::follow_step(Pos::new(0, 0), Pos::new(15, 0), 10), (Pos::new(10, 0), false));
    assert_eq!(navigation::follow_step(Pos::new(5, 5), Pos::new(5, 5), 0), (Pos::new(5, 5), true));
}

#[test]
fn follower_without_stop_keeps_following() {
    let mut prev = Ecs::new();
    let b = EntitySpawner::new().with_pos(Pos::new(3, 4)).spawn(&mut prev);
    let a = EntitySpawner::new()
        .with_pos(Pos::new(0, 0))
        .with_follow(Follow { stop_after_arriving: false, target_entity: b })
        .spawn(&mut prev);
    let mut next = prev.snapshot();
    navigation::update_and_render(20, &prev, &mut next);
    assert_eq!(next.pos_for(a), Some(Pos::new(3, 4)));
    assert!(next.follow_for(a).is_some());
}

#[test]
fn mutable_access_writes_through() {
    let mut ecs = Ecs::new();
    let a = EntitySpawner::new().with_pos(Pos::new(1, 1)).spawn(&mut ecs);
    let b = EntitySpawner::new().with_pos(Pos::new(2, 2)).with_sprite_anims(vec![]).spawn(&mut ecs);
    ecs.pos_for_mut_unchecked(b).x = 9;
    assert_eq!(ecs.pos_for(b), Some(Pos::new(9, 2)));
    assert_eq!(ecs.pos_for(a), Some(Pos::new(1, 1)));
    ecs.sprite_anims_for_mut_unchecked(b).push(SpriteAnim::from_sprite(Id::new(0), Id::new(0)));
    assert_eq!(ecs.sprite_anims_for_unchecked(b).len(), 1);
}
