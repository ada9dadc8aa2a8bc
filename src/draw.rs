use vstd::prelude::*;

use crate::animation::{loop_step, AnimationCursor, Keyframe};
use crate::autotile::{canonical_offset, filter_mask};
use crate::components::{ComponentKind, Pos, SpriteAnim, SpriteAnims, Terrain, Tile};
use crate::ecs::{lemma_sentinel, lists_ids, Ecs};
use crate::manager::{ResourceLoader, ResourceManager};
use crate::slices::copy_of;
use crate::sprite_map::{Rect, ResolvedTileset, SpriteMap};
use crate::tile_map::{TileMap, SIZE};

verus! {

/// A cel to draw: the rectangle `tex_rect` of sprite map `sprite`'s texture,
/// onto the world rectangle at (`x`, `y`) of size `w` x `h`.
#[derive(Clone, Copy, Debug, PartialEq, Eq, Structural)]
pub struct CelDraw {
    pub sprite: u32,
    pub tex_rect: Rect,
    pub x: i64,
    pub y: i64,
    pub w: u16,
    pub h: u16,
}

/// Why a frame could not be drawn.
#[derive(Clone, Copy, Debug, PartialEq, Eq, Structural)]
pub enum DrawError {
    /// An entity lacks a component that drawing it needs.
    MissingComponent,
    /// An animation names a sprite map that was never loaded.
    UnknownSprite,
    /// An animation id does not belong to its sprite map.
    UnknownAnimation,
    /// A keyframe names a cel that its sprite map lacks.
    UnknownCel,
}

/// Animation `a` names a loaded sprite map and one of its animations.
pub open spec fn anim_ok(cache: Seq<SpriteMap>, a: SpriteAnim) -> bool {
    &&& a.sprite.val < cache.len()
    &&& a.anim.val / 0x10000 == cache[a.sprite.val as int].id_spec()
    &&& a.anim.val % 0x10000 < cache[a.sprite.val as int].animations().len()
}

/// The keyframes of animation `a`.
pub open spec fn anim_frames(cache: Seq<SpriteMap>, a: SpriteAnim) -> Seq<Keyframe<Vec<u16>>> {
    cache[a.sprite.val as int].animations()[a.anim.val as int % 0x10000].keyframes.frames()
}

/// The cels that animation `a` shows when a cursor at `cursor` steps to `now`.
pub open spec fn shown_cels(cache: Seq<SpriteMap>, a: SpriteAnim, cursor: AnimationCursor, now: u64) -> Seq<u16> {
    anim_frames(cache, a)[loop_step(anim_frames(cache, a), cursor, now).1].value@
}

/// Drawing cel `c` of `sheet` for an entity at `pos`: the cel's place in its
/// source image is relative to the entity.
pub open spec fn cel_draw(sheet: SpriteMap, sprite: u32, c: u16, pos: Pos) -> CelDraw {
    let cel = sheet.cel_list()[c as int];
    CelDraw {
        sprite,
        tex_rect: cel.tex_rect,
        x: (pos.x + cel.src_rect.x) as i64,
        y: (pos.y + cel.src_rect.y) as i64,
        w: cel.src_rect.w,
        h: cel.src_rect.h,
    }
}

/// The animations of an entity that step: as many as both its animations in
/// `prev` and in `next` have.
pub open spec fn stepped(prev: Seq<SpriteAnim>, next: Seq<SpriteAnim>) -> int {
    if prev.len() < next.len() {
        prev.len() as int
    } else {
        next.len() as int
    }
}

/// The first `n` animations of an entity name loaded animations whose shown
/// cels exist.
pub open spec fn anims_ok(cache: Seq<SpriteMap>, prev: Seq<SpriteAnim>, next: Seq<SpriteAnim>, now: u64, n: int) -> bool {
    forall|i: int| 0 <= i < n ==> #[trigger] anim_ok(cache, prev[i]) && forall|j: int|
        0 <= j < shown_cels(cache, prev[i], next[i].cursor, now).len() ==> shown_cels(cache, prev[i], next[i].cursor, now)[j]
            < cache[prev[i].sprite.val as int].cel_list().len()
}

/// The cels drawn for the first `n` animations of an entity at `pos`.
pub open spec fn anims_draws(cache: Seq<SpriteMap>, prev: Seq<SpriteAnim>, next: Seq<SpriteAnim>, pos: Pos, now: u64, n: int) -> Seq<CelDraw>
    decreases n,
{
    if n <= 0 {
        Seq::empty()
    } else {
        let a = prev[n - 1];
        anims_draws(cache, prev, next, pos, now, n - 1) + shown_cels(cache, a, next[n - 1].cursor, now).map_values(
            |c: u16| cel_draw(cache[a.sprite.val as int], a.sprite.val, c, pos),
        )
    }
}

/// An entity's animations in `next` after a frame: the cursor of each that
/// steps moves by one step of looping playback of the animation that `prev`
/// names.
pub open spec fn animated(cache: Seq<SpriteMap>, prev: Seq<SpriteAnim>, next: Seq<SpriteAnim>, now: u64) -> Seq<SpriteAnim> {
    Seq::new(
        next.len(),
        |i: int|
            if i < stepped(prev, next) {
                SpriteAnim { cursor: loop_step(anim_frames(cache, prev[i]), next[i].cursor, now).0, ..next[i] }
            } else {
                next[i]
            },
    )
}

/// Steps the animations of one entity at `pos` to `now_ms`: the sprite map
/// and animation come from `prev_anims`, the cursors from `next_anims`.
/// Returns the new animations and the cels to draw, or the first problem.
pub fn animate_entity<L: ResourceLoader<SpriteMap>>(
    now_ms: u64,
    sheets: &ResourceManager<SpriteMap, L>,
    pos: Pos,
    prev_anims: &SpriteAnims,
    next_anims: &SpriteAnims,
) -> (r: Result<(SpriteAnims, Vec<CelDraw>), DrawError>)
    ensures
        r is Ok <==> anims_ok(sheets.cache(), prev_anims@, next_anims@, now_ms, stepped(prev_anims@, next_anims@)),
        r matches Ok((anims, draws)) ==> anims@ == animated(sheets.cache(), prev_anims@, next_anims@, now_ms)
            && draws@ == anims_draws(sheets.cache(), prev_anims@, next_anims@, pos, now_ms, stepped(prev_anims@, next_anims@)),
{
    let ghost cache = sheets.cache();
    let n = if prev_anims.len() < next_anims.len() {
        prev_anims.len()
    } else {
        next_anims.len()
    };
    let mut anims = copy_of(next_anims.as_slice());
    let mut draws: Vec<CelDraw> = Vec::new();
    let mut i: usize = 0;
    while i < n
        invariant
            n == stepped(prev_anims@, next_anims@),
            i <= n,
            cache == sheets.cache(),
            anims@.len() == next_anims@.len(),
            forall|j: int| 0 <= j < anims@.len() ==> (#[trigger] anims@[j]) == (if j < i {
                animated(cache, prev_anims@, next_anims@, now_ms)[j]
            } else {
                next_anims@[j]
            }),
            anims_ok(cache, prev_anims@, next_anims@, now_ms, i as int),
            draws@ == anims_draws(cache, prev_anims@, next_anims@, pos, now_ms, i as int),
        decreases n - i,
    {
        let pa = prev_anims[i];
        if pa.sprite.val as usize >= sheets.len() {
            assert(!anim_ok(cache, prev_anims@[i as int]));
            return Err(DrawError::UnknownSprite);
        }
        let sheet = sheets.get(pa.sprite);
        if pa.anim.hi() as u32 != sheet.id().val || pa.anim.lo() as usize >= sheet.animation_count() {
            assert(!anim_ok(cache, prev_anims@[i as int]));
            return Err(DrawError::UnknownAnimation);
        }
        let anim = sheet.get_animation(pa.anim);
        let mut cursor = anims[i].cursor;
        let shown = anim.update_cursor_loop(&mut cursor, now_ms);
        let ghost shown_spec = shown_cels(cache, pa, next_anims@[i as int].cursor, now_ms);
        assert(shown@ == shown_spec);
        let cels = sheet.cels();
        let ghost before = draws@;
        let mut k: usize = 0;
        while k < shown.len()
            invariant
                k <= shown@.len(),
                i < n,
                n == stepped(prev_anims@, next_anims@),
                cache == sheets.cache(),
                pa == prev_anims@[i as int],
                anim_ok(cache, pa),
                shown_spec == shown_cels(cache, pa, next_anims@[i as int].cursor, now_ms),
                shown@ == shown_spec,
                cels@ == cache[pa.sprite.val as int].cel_list(),
                forall|j: int| 0 <= j < k ==> shown_spec[j] < cels@.len(),
                draws@ == before + shown_spec.subrange(0, k as int).map_values(
                    |c: u16| cel_draw(cache[pa.sprite.val as int], pa.sprite.val, c, pos),
                ),
            decreases shown@.len() - k,
        {
            let c = shown[k];
            if c as usize >= cels.len() {
                assert(shown_spec[k as int] >= cels@.len());
                assert(!anims_ok(cache, prev_anims@, next_anims@, now_ms, stepped(prev_anims@, next_anims@))) by {
                    if anims_ok(cache, prev_anims@, next_anims@, now_ms, stepped(prev_anims@, next_anims@)) {
                        assert(anim_ok(cache, prev_anims@[i as int]));
                    }
                }
                return Err(DrawError::UnknownCel);
            }
            let cel = cels[c as usize];
            draws.push(
                CelDraw {
                    sprite: pa.sprite.val,
                    tex_rect: cel.tex_rect,
                    x: pos.x as i64 + cel.src_rect.x as i64,
                    y: pos.y as i64 + cel.src_rect.y as i64,
                    w: cel.src_rect.w,
                    h: cel.src_rect.h,
                },
            );
            k = k + 1;
            assert(draws@ =~= before + shown_spec.subrange(0, k as int).map_values(
                |c: u16| cel_draw(cache[pa.sprite.val as int], pa.sprite.val, c, pos),
            ));
        }
        assert(shown_spec.subrange(0, shown_spec.len() as int) =~= shown_spec);
        assert(anims_ok(cache, prev_anims@, next_anims@, now_ms, i + 1)) by {
            assert forall|x: int| 0 <= x < i + 1 implies #[trigger] anim_ok(cache, prev_anims@[x]) && forall|j: int|
                0 <= j < shown_cels(cache, prev_anims@[x], next_anims@[x].cursor, now_ms).len() ==> shown_cels(cache, prev_anims@[x], next_anims@[x].cursor, now_ms)[j]
                    < cache[prev_anims@[x].sprite.val as int].cel_list().len() by {
                if x < i {
                    assert(anim_ok(cache, prev_anims@[x]));
                }
            }
        }
        let old_anim = anims[i];
        anims.set(i, SpriteAnim { cursor, ..old_anim });
        i = i + 1;
    }
    Ok((anims, draws))
}

/// Entity `e` can be animated: it has a position in `prev`, animations in
/// `next`, and its animations are well formed.
pub open spec fn entity_ok(cache: Seq<SpriteMap>, prev: &Ecs, anims: Map<usize, Seq<SpriteAnim>>, e: usize, now: u64) -> bool {
    let pa = prev.sprite_anims_view()[e]@;
    let na = anims[e];
    &&& prev.pos_view().contains_key(e)
    &&& anims.contains_key(e)
    &&& anims_ok(cache, pa, na, now, stepped(pa, na))
}

/// Every entity with animations in `prev` can be animated.
pub open spec fn all_entities_ok(cache: Seq<SpriteMap>, prev: &Ecs, anims: Map<usize, Seq<SpriteAnim>>, now: u64) -> bool {
    forall|e: usize| #[trigger] prev.sprite_anims_view().contains_key(e) ==> entity_ok(cache, prev, anims, e, now)
}

/// The animations of each entity, as sequences.
pub open spec fn anim_views(ecs: &Ecs) -> Map<usize, Seq<SpriteAnim>> {
    ecs.sprite_anims_view().map_values(|v: SpriteAnims| v@)
}

/// The animations `anims` of `next` after the animation system.
pub open spec fn animated_all(cache: Seq<SpriteMap>, prev: &Ecs, anims: Map<usize, Seq<SpriteAnim>>, now: u64) -> Map<
    usize,
    Seq<SpriteAnim>,
> {
    Map::new(
        |e: usize| anims.contains_key(e),
        |e: usize|
            if prev.sprite_anims_view().contains_key(e) {
                animated(cache, prev.sprite_anims_view()[e]@, anims[e], now)
            } else {
                anims[e]
            },
    )
}

/// The cels drawn for the first `j` entities of `order`.
pub open spec fn system_draws(cache: Seq<SpriteMap>, prev: &Ecs, anims: Map<usize, Seq<SpriteAnim>>, order: Seq<usize>, now: u64, j: int) -> Seq<CelDraw>
    decreases j,
{
    if j <= 0 {
        Seq::empty()
    } else {
        let e = order[j - 1];
        let pa = prev.sprite_anims_view()[e]@;
        let na = anims[e];
        system_draws(cache, prev, anims, order, now, j - 1) + anims_draws(cache, pa, na, prev.pos_view()[e], now, stepped(pa, na))
    }
}

/// The animation system: for each entity with animations in `prev`, in
/// storage order, steps the cursors of its animations in `next` (looping)
/// and lists the cels to draw at its position in `prev`. Fails, leaving
/// `next` partly updated, at the first entity that cannot be animated.
pub fn update_and_render_animations<L: ResourceLoader<SpriteMap>>(
    now_ms: u64,
    sheets: &ResourceManager<SpriteMap, L>,
    prev: &Ecs,
    next: &mut Ecs,
) -> (r: Result<Vec<CelDraw>, DrawError>)
    requires
        prev.wf(),
        old(next).wf(),
    ensures
        final(next).wf(),
        final(next).agree_except(old(next), ComponentKind::SpriteAnims),
        final(next).sprite_anims_view().dom() == old(next).sprite_anims_view().dom(),
        (r is Ok) <==> all_entities_ok(sheets.cache(), prev, anim_views(old(next)), now_ms),
        r matches Ok(draws) ==> {
            &&& draws@ == system_draws(sheets.cache(), prev, anim_views(old(next)), prev.sprite_anims_order(), now_ms, prev.sprite_anims_order().len() as int)
            &&& anim_views(final(next)) == animated_all(sheets.cache(), prev, anim_views(old(next)), now_ms)
            &&& forall|e: usize| #[trigger] old(next).sprite_anims_view().contains_key(e) ==> final(next).sprite_anims_view()[e]@ == (
                if prev.sprite_anims_view().contains_key(e) {
                    animated(sheets.cache(), prev.sprite_anims_view()[e]@, old(next).sprite_anims_view()[e]@, now_ms)
                } else {
                    old(next).sprite_anims_view()[e]@
                })
        },
{
    let ghost cache = sheets.cache();
    let ghost next0 = *next;
    let items = prev.sprite_anims_iter();
    let mut draws: Vec<CelDraw> = Vec::new();
    let ghost mut done: Set<usize> = Set::empty();
    let mut j: usize = 0;
    while j < items.len()
        invariant
            prev.wf(),
            next.wf(),
            cache == sheets.cache(),
            next0 == *old(next),
            next0.wf(),
            items@ == prev.sprite_anims_order(),
            lists_ids_of(items@, prev),
            j <= items@.len(),
            next.agree_except(&next0, ComponentKind::SpriteAnims),
            next.sprite_anims_view().dom() == next0.sprite_anims_view().dom(),
            forall|x: int| 0 <= x < j ==> done.contains(#[trigger] items@[x]),
            forall|e: usize| #[trigger] done.contains(e) ==> prev.sprite_anims_view().contains_key(e) && entity_ok(cache, prev, anim_views(&next0), e, now_ms),
            forall|x: int| j <= x < items@.len() ==> !done.contains(#[trigger] items@[x]),
            forall|e: usize| #[trigger] next0.sprite_anims_view().contains_key(e) ==> next.sprite_anims_view()[e]@ == (
                if done.contains(e) {
                    animated(cache, prev.sprite_anims_view()[e]@, next0.sprite_anims_view()[e]@, now_ms)
                } else {
                    next0.sprite_anims_view()[e]@
                }),
            draws@ == system_draws(cache, prev, anim_views(&next0), items@, now_ms, j as int),
        decreases items@.len() - j,
    {
        let e = items[j];
        proof {
            lemma_sentinel(prev, e, ComponentKind::SpriteAnims);
        }
        let pos = match prev.pos_for(e) {
            Some(p) => p,
            None => {
                assert(!entity_ok(cache, prev, anim_views(&next0), e, now_ms));
                return Err(DrawError::MissingComponent);
            },
        };
        if e >= next.num_entities_exec() {
            proof {
                lemma_sentinel(&next0, e, ComponentKind::SpriteAnims);
            }
            assert(!entity_ok(cache, prev, anim_views(&next0), e, now_ms));
            return Err(DrawError::MissingComponent);
        }
        let na = match next.sprite_anims_for(e) {
            Some(a) => a,
            None => {
                assert(!entity_ok(cache, prev, anim_views(&next0), e, now_ms));
                return Err(DrawError::MissingComponent);
            },
        };
        assert(!done.contains(e));
        assert(na@ == next0.sprite_anims_view()[e]@);
        let pa = prev.sprite_anims_for_unchecked(e);
        let (anims, mut more) = match animate_entity(now_ms, sheets, pos, pa, na) {
            Ok(v) => v,
            Err(err) => {
                assert(!entity_ok(cache, prev, anim_views(&next0), e, now_ms));
                return Err(err);
            },
        };
        let ghost before = draws@;
        draws.append(&mut more);
        next.set_sprite_anims_for(e, anims);
        proof {
            assert forall|x: int| j + 1 <= x < items@.len() implies !done.insert(e).contains(#[trigger] items@[x]) by {
                assert(items@[j as int] != items@[x]);
            }
            done = done.insert(e);
        }
        j = j + 1;
    }
    proof {
        assert forall|e: usize| #[trigger] prev.sprite_anims_view().contains_key(e) implies done.contains(e) by {
            let x = choose|x: int| 0 <= x < items@.len() && #[trigger] items@[x] == e;
        }
        assert(anim_views(next) =~= animated_all(cache, prev, anim_views(&next0), now_ms));
    }
    Ok(draws)
}

/// `items` lists each entity with animations in `ecs` once.
pub open spec fn lists_ids_of(items: Seq<usize>, ecs: &Ecs) -> bool {
    lists_ids(items, ecs.sprite_anims_view().dom())
}

/// Whether a terrain tile is solid.
pub fn is_solid(t: &Tile) -> (r: bool)
    ensures
        r == t.0,
{
    t.0
}

/// A terrain tile to draw: the tile at (`x`, `y`), with the rectangle of the
/// tileset's texture that fits its solid neighbours.
#[derive(Clone, Copy, Debug, PartialEq, Eq, Structural)]
pub struct TileDraw {
    pub x: usize,
    pub y: usize,
    pub tex_rect: Rect,
}

/// The rectangle of `tileset` for a tile whose solid neighbours are `mask`.
pub open spec fn sub_tile_rect(tileset: ResolvedTileset, mask: u8) -> Rect {
    let p = canonical_offset(filter_mask(mask)).unwrap();
    Rect {
        x: (tileset.rect.x + p.0 * tileset.grid_size) as u16,
        y: (tileset.rect.y + p.1 * tileset.grid_size) as u16,
        w: tileset.grid_size as u16,
        h: tileset.grid_size as u16,
    }
}

/// The draws of the solid tiles (`x`, `y`) with 1 <= `y` < `ny`, in order.
pub open spec fn column_draws(tiles: TileMap<Tile>, tileset: ResolvedTileset, x: int, ny: int) -> Seq<TileDraw>
    decreases ny,
{
    if ny <= 1 {
        Seq::empty()
    } else if tiles.at(x, ny - 1).0 {
        column_draws(tiles, tileset, x, ny - 1).push(
            TileDraw {
                x: x as usize,
                y: (ny - 1) as usize,
                tex_rect: sub_tile_rect(tileset, tiles.neighbor_mask(x, ny - 1, is_solid)),
            },
        )
    } else {
        column_draws(tiles, tileset, x, ny - 1)
    }
}

/// The draws of the solid tiles (`x`, `y`) with 1 <= `x` < `nx` and
/// 1 <= `y` < `SIZE`, column by column.
pub open spec fn terrain_draws(tiles: TileMap<Tile>, tileset: ResolvedTileset, nx: int) -> Seq<TileDraw>
    decreases nx,
{
    if nx <= 1 {
        Seq::empty()
    } else {
        terrain_draws(tiles, tileset, nx - 1) + column_draws(tiles, tileset, nx - 1, SIZE as int)
    }
}

/// The terrain system: the tiles of `terrain` to draw with `tileset`, each
/// solid tile once, column by column from 1.
pub fn update_and_render_terrain(terrain: &Terrain, tileset: &ResolvedTileset) -> (r: Vec<TileDraw>)
    requires
        terrain.tiles.wf(),
        tileset.rect.x + 11 * tileset.grid_size <= u16::MAX,
        tileset.rect.y + 3 * tileset.grid_size <= u16::MAX,
    ensures
        r@ == terrain_draws(terrain.tiles, *tileset, SIZE as int),
{
    let mut r: Vec<TileDraw> = Vec::new();
    let size = terrain.tiles.size();
    let mut x: usize = 1;
    while x < size
        invariant
            size == SIZE,
            1 <= x <= SIZE,
            terrain.tiles.wf(),
            tileset.rect.x + 11 * tileset.grid_size <= u16::MAX,
            tileset.rect.y + 3 * tileset.grid_size <= u16::MAX,
            r@ == terrain_draws(terrain.tiles, *tileset, x as int),
        decreases SIZE - x,
    {
        let ghost before = r@;
        let mut y: usize = 1;
        while y < size
            invariant
                size == SIZE,
                1 <= x < SIZE,
                1 <= y <= SIZE,
                terrain.tiles.wf(),
                tileset.rect.x + 11 * tileset.grid_size <= u16::MAX,
                tileset.rect.y + 3 * tileset.grid_size <= u16::MAX,
                r@ == before + column_draws(terrain.tiles, *tileset, x as int, y as int),
            decreases SIZE - y,
        {
            if terrain.tiles.get(x, y).0 {
                let mask = terrain.tiles.filter_neighbors(x, y, is_solid);
                let rect = tileset.tex_rect_for(mask);
                r.push(TileDraw { x, y, tex_rect: rect });
                assert(r@ =~= before + column_draws(terrain.tiles, *tileset, x as int, y + 1));
            } else {
                assert(r@ =~= before + column_draws(terrain.tiles, *tileset, x as int, y + 1));
            }
            y = y + 1;
        }
        x = x + 1;
    }
    r
}

} // verus!
