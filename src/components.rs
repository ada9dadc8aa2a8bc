use vstd::prelude::*;

use crate::animation::AnimationCursor;
use crate::sprite_map::{SpriteMapAnimation, SpriteMapIdMarker};
use crate::tile_map::TileMap;
use crate::types::Id;

verus! {

/// A position in the world, in whole world units.
#[derive(Clone, Copy, Debug, PartialEq, Eq, Structural)]
pub struct Pos {
    pub x: i32,
    pub y: i32,
}

impl Pos {
    pub fn new(x: i32, y: i32) -> (r: Pos)
        ensures
            r.x == x,
            r.y == y,
    {
        Pos { x, y }
    }

    /// The point (0, 0).
    pub fn origin() -> (r: Pos)
        ensures
            r.x == 0,
            r.y == 0,
    {
        Pos { x: 0, y: 0 }
    }
}

/// One tile of a terrain: solid or not.
#[derive(Clone, Copy, Debug, PartialEq, Eq, Structural)]
pub struct Tile(pub bool);

/// A grid of terrain tiles.
pub struct Terrain {
    pub tiles: TileMap<Tile>,
}

impl Terrain {
    /// A terrain without solid tiles.
    pub fn empty() -> (r: Terrain)
        ensures
            r.tiles.wf(),
            forall|x: int, y: int| TileMap::<Tile>::in_padded(x, y) ==> r.tiles.at(x, y) == Tile(false),
    {
        Terrain { tiles: TileMap::new(Tile(false)) }
    }
}

/// The most animations that one entity plays at once.
pub const MAX_ANIM_PER_ENTITY: usize = 4;

/// One animation of a sprite map, played by an entity.
#[derive(Clone, Copy)]
pub struct SpriteAnim {
    pub sprite: Id<SpriteMapIdMarker>,
    pub anim: Id<SpriteMapAnimation>,
    pub cursor: AnimationCursor,
}

impl SpriteAnim {
    /// A stopped animation of `anim` in sprite map `sprite`.
    pub fn from_sprite(sprite: Id<SpriteMapIdMarker>, anim: Id<SpriteMapAnimation>) -> (r: Self)
        ensures
            r.sprite == sprite,
            r.anim == anim,
            r.cursor.start_ms == 0,
            r.cursor.current_frame == 0,
            !r.cursor.playing,
    {
        SpriteAnim { sprite, anim, cursor: AnimationCursor::new() }
    }
}

/// The animations that an entity plays, at most `MAX_ANIM_PER_ENTITY`.
pub type SpriteAnims = Vec<SpriteAnim>;

/// Makes an entity move towards another one.
#[derive(Clone, Copy, Debug, PartialEq, Eq, Structural)]
pub struct Follow {
    pub stop_after_arriving: bool,
    pub target_entity: usize,
}

/// An RGBA colour.
#[derive(Clone, Copy, Debug, PartialEq, Eq, Structural)]
pub struct Color {
    pub r: u8,
    pub g: u8,
    pub b: u8,
    pub a: u8,
}

/// Debugging aids drawn for an entity.
#[derive(Clone, Copy, Debug, PartialEq, Eq, Structural)]
pub struct DebugFlags {
    pub box_color: Option<Color>,
}

/// An entity: for each component type, the index of its component in that
/// type's dense storage, or 0 when it has none.
#[derive(Clone, Copy, Debug, PartialEq, Eq, Structural)]
pub struct Entity {
    pub pos: usize,
    pub follow: usize,
    pub debug: usize,
    pub sprite_anims: usize,
    pub terrain: usize,
}

impl Entity {
    /// The entity without components.
    pub fn empty() -> (r: Entity)
        ensures
            r.pos == 0 && r.follow == 0 && r.debug == 0 && r.sprite_anims == 0 && r.terrain == 0,
    {
        Entity { pos: 0, follow: 0, debug: 0, sprite_anims: 0, terrain: 0 }
    }
}

/// The component types.
#[derive(Clone, Copy, Debug, PartialEq, Eq, Structural)]
pub enum ComponentKind {
    Pos,
    Follow,
    Debug,
    SpriteAnims,
    Terrain,
}

} // verus!
