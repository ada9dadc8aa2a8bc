use engine::manager::{Resource, ResourceError, ResourceLoader, ResourceManager};
use engine::sprite_map::{Rect, SpriteMap, SpriteMapAnimation, SpriteMapCel, SpriteMapIdMarker, Tileset};
use engine::animation::{Animation, Keyframe};
use engine::types::Id;

struct Text(String);

impl Resource for Text {
    type Id = Text;
}

struct Echo;

impl ResourceLoader<Text> for Echo {
    fn load(&self, key: &str) -> Result<Text, ResourceError> {
        if key.is_empty() {
            Err(ResourceError::LoadFailed)
        } else {
            Ok(Text(key.to_uppercase()))
        }
    }
}

#[test]
fn same_key_twice_gives_two_ids() {
    let mut m = ResourceManager::new(Echo);
    let a = m.load("tiles").unwrap();
    let b = m.load("tiles").unwrap();
    assert!(a != b);
    assert_eq!(a.full(), 0);
    assert_eq!(b.full(), 1);
    assert_eq!(m.get(a).0, "TILES");
    assert_eq!(m.get(b).0, "TILES");
    assert_eq!(m.len(), 2);
}

#[test]
fn failed_load_changes_nothing() {
    let mut m = ResourceManager::new(Echo);
    assert_eq!(m.load("").err(), Some(ResourceError::LoadFailed));
    assert_eq!(m.len(), 0);
    let a = m.load("x").unwrap();
    assert_eq!(a.full(), 0);
    assert_eq!(m.install(Err(ResourceError::LoadFailed)).err(), Some(ResourceError::LoadFailed));
    assert_eq!(m.install(Ok(Text("y".to_string()))).unwrap().full(), 1);
}

fn rect(x: u16) -> Rect {
    Rect { x, y: 0, w: 16, h: 16 }
}

fn sheet() -> SpriteMap {
    let cels = vec![SpriteMapCel::new(rect(0), rect(1)), SpriteMapCel::new(rect(16), rect(2)), SpriteMapCel::new(rect(32), rect(3))];
    let walk = SpriteMapAnimation { keyframes: Animation::new(vec![Keyframe::new(100, vec![0u16])]) };
    let idle = SpriteMapAnimation { keyframes: Animation::new(vec![Keyframe::new(80, vec![1u16, 2])]) };
    SpriteMap::new_in(
        Id::<SpriteMapIdMarker>::new(3),
        cels,
        vec![("body:idle".to_string(), idle), ("body:walk".to_string(), walk)],
        vec![("mask".to_string(), Tileset { grid_size: 8, cel: 2 })],
    )
}

#[test]
fn sprite_map_ids_are_scoped_to_the_sheet() {
    let s = sheet();
    assert_eq!(s.id().full(), 3);
    assert!(s.has_animation("body:walk"));
    assert!(!s.has_animation("body:run"));
    let walk = s.get_animation_id("body:walk");
    assert_eq!(walk.hi(), 3);
    assert_eq!(walk.lo(), 1);
    assert_eq!(s.get_animation(walk).keyframes.keyframe(0).value, vec![0u16]);
    let idle = s.get_animation_id("body:idle");
    assert_eq!(idle.lo(), 0);
    assert_eq!(s.get_animation(idle).keyframes.keyframe(0).duration_ms, 80);
    assert!(s.has_tileset("mask"));
    let t = s.get_tileset_id("mask");
    assert_eq!(t.full(), 0x0003_0000);
    let r = s.get_tileset(t);
    assert_eq!(r.grid_size, 8);
    assert_eq!(r.rect, rect(32));
    assert_eq!(s.cels().len(), 3);
}
