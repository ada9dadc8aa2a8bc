use vstd::prelude::*;
use vstd::string::*;
use vstd::utf8::*;

use crate::animation::{advance_to, loop_step, Animation, AnimationCursor};
use crate::autotile::{canonical_offset, filter_mask, offset_of};
use crate::manager::Resource;
use crate::tile_map::NeighborMask;
use crate::types::Id;

verus! {

/// Marks ids of sprite maps.
pub struct SpriteMapIdMarker;

/// A rectangle in pixels.
#[derive(Clone, Copy, Debug, PartialEq, Eq, Structural)]
pub struct Rect {
    pub x: u16,
    pub y: u16,
    pub w: u16,
    pub h: u16,
}

/// An animation of a sprite map: each keyframe holds, per layer, the index of
/// the cel to draw.
pub struct SpriteMapAnimation {
    pub keyframes: Animation<Vec<u16>>,
}

impl SpriteMapAnimation {
    /// Advances `cursor` and returns the cel indices of the current keyframe,
    /// or `None` once the animation has ended.
    pub fn update_cursor<'a>(&'a self, cursor: &mut AnimationCursor, now_ms: u64) -> (r: Option<
        &'a [u16],
    >)
        ensures
            final(cursor).start_ms == old(cursor).start_ms,
            final(cursor).current_frame >= old(cursor).current_frame,
            !old(cursor).playing ==> r.is_none() && *final(cursor) == *old(cursor),
            old(cursor).playing ==> {
                let f = advance_to(
                    self.keyframes.frames(),
                    old(cursor).start_ms as int,
                    now_ms as int,
                    old(cursor).current_frame as int,
                );
                &&& final(cursor).current_frame == f
                &&& f < self.keyframes.frames().len() ==> final(cursor).playing && (r matches Some(v) && v@
                    == self.keyframes.frames()[f].value@)
                &&& f >= self.keyframes.frames().len() ==> !final(cursor).playing && r.is_none()
            },
    {
        match cursor.update(now_ms, &self.keyframes) {
            Some(v) => Some(v.as_slice()),
            None => None,
        }
    }

    /// Advances `cursor` like `update_cursor`, but restarts it at `now_ms`
    /// when the animation has ended or the cursor is stopped, so that the
    /// animation loops.
    pub fn update_cursor_loop<'a>(&'a self, cursor: &mut AnimationCursor, now_ms: u64) -> (r: &'a [u16])
        requires
            self.keyframes.wf(),
        ensures
            *final(cursor) == loop_step(self.keyframes.frames(), *old(cursor), now_ms).0,
            r@ == self.keyframes.frames()[loop_step(self.keyframes.frames(), *old(cursor), now_ms).1].value@,
    {
        match self.update_cursor(cursor, now_ms) {
            None => cursor.start(now_ms, &self.keyframes).as_slice(),
            Some(v) => v,
        }
    }
}

/// A set of tiles drawn from one cel of exactly 12 x 4 sub-tiles, each
/// `grid_size` pixels wide, arranged by neighbour mask.
#[derive(Clone, Copy, Debug, PartialEq, Eq, Structural)]
pub struct Tileset {
    pub grid_size: u8,
    pub cel: u16,
}

impl Resource for Tileset {
    type Id = Tileset;
}

/// A tileset with the rectangle of its cel in the sprite map's texture.
#[derive(Clone, Copy, Debug, PartialEq, Eq, Structural)]
pub struct ResolvedTileset {
    pub rect: Rect,
    pub grid_size: u8,
}

impl ResolvedTileset {
    /// The rectangle of the sub-tile to draw for a tile whose solid
    /// neighbours are `mask`.
    pub fn tex_rect_for(&self, mask: NeighborMask) -> (r: Rect)
        requires
            self.rect.x + 11 * self.grid_size <= u16::MAX,
            self.rect.y + 3 * self.grid_size <= u16::MAX,
        ensures
            canonical_offset(filter_mask(mask.0)) matches Some(p) && r == (Rect {
                x: (self.rect.x + p.0 * self.grid_size) as u16,
                y: (self.rect.y + p.1 * self.grid_size) as u16,
                w: self.grid_size as u16,
                h: self.grid_size as u16,
            }),
    {
        let (ox, oy) = offset_of(mask.0);
        let g = self.grid_size as u16;
        assert(ox * g <= 11 * g && oy * g <= 3 * g) by (nonlinear_arith)
            requires
                ox < 12,
                oy < 4,
        ;
        Rect { x: self.rect.x + ox as u16 * g, y: self.rect.y + oy as u16 * g, w: g, h: g }
    }
}

/// Where one image (a cel) lies within the sprite map.
#[derive(Clone, Copy, Debug, PartialEq, Eq, Structural)]
pub struct SpriteMapCel {
    /// Its place in the packed texture.
    pub tex_rect: Rect,
    /// Its place relative to its source image.
    pub src_rect: Rect,
}

impl SpriteMapCel {
    pub fn new(tex_rect: Rect, src_rect: Rect) -> (r: Self)
        ensures
            r.tex_rect == tex_rect,
            r.src_rect == src_rect,
    {
        SpriteMapCel { tex_rect, src_rect }
    }
}

/// Names and their indices.
#[verifier::external_body]
pub struct NameMap {
    map: hashbrown::HashMap<String, u32>,
}

/// What a `NameMap` holds: the index stored under each name.
pub uninterp spec fn name_map_entries(m: NameMap) -> Map<Seq<char>, u32>;

/// Relies on `hashbrown::HashMap::new`: the map is empty.
#[verifier::external_body]
fn name_map_new() -> (r: NameMap)
    ensures
        name_map_entries(r).dom() == Set::<Seq<char>>::empty(),
{
    NameMap { map: hashbrown::HashMap::new() }
}

/// Relies on `hashbrown::HashMap::insert`: `v` is stored under `k`, in place
/// of what was there.
#[verifier::external_body]
fn name_map_insert(m: &mut NameMap, k: String, v: u32)
    ensures
        name_map_entries(*final(m)) == name_map_entries(*old(m)).insert(k@, v),
{
    m.map.insert(k, v);
}

/// Relies on `hashbrown::HashMap::get`: the index stored under `k`, if any;
/// string keys are equal when their characters are.
#[verifier::external_body]
fn name_map_get(m: &NameMap, k: &str) -> (r: Option<u32>)
    ensures
        (r is Some) <==> name_map_entries(*m).contains_key(k@),
        r matches Some(v) ==> name_map_entries(*m)[k@] == v,
{
    m.map.get(k).copied()
}

/// `idx` maps each of `names` to its index, and nothing else.
pub open spec fn index_matches(idx: Map<Seq<char>, u32>, names: Seq<String>) -> bool {
    &&& forall|i: int| 0 <= i < names.len() ==> idx.contains_key(#[trigger] names[i]@) && idx[names[i]@] == i
    &&& forall|n: Seq<char>| #[trigger] idx.contains_key(n) ==> idx[n] < names.len() && names[idx[n] as int]@ == n
}

/// The index of each name.
fn build_index(names: &Vec<String>) -> (r: NameMap)
    requires
        distinct_names(names@),
        names@.len() < 0x10000,
    ensures
        index_matches(name_map_entries(r), names@),
{
    let mut m = name_map_new();
    let mut i: usize = 0;
    while i < names.len()
        invariant
            i <= names@.len() < 0x10000,
            distinct_names(names@),
            forall|j: int| 0 <= j < i ==> name_map_entries(m).contains_key(#[trigger] names@[j]@)
                && name_map_entries(m)[names@[j]@] == j,
            forall|n: Seq<char>| #[trigger] name_map_entries(m).contains_key(n) ==> name_map_entries(m)[n] < i
                && names@[name_map_entries(m)[n] as int]@ == n,
        decreases names@.len() - i,
    {
        let name = names[i].clone();
        name_map_insert(&mut m, name, i as u32);
        proof {
            assert forall|j: int| 0 <= j < i implies names@[j]@ != names@[i as int]@ by {}
        }
        i = i + 1;
    }
    m
}

/// The index under which `names` holds `name`, looked up in `m`.
fn index_of(m: &NameMap, names: &Vec<String>, name: &str) -> (r: Option<usize>)
    requires
        index_matches(name_map_entries(*m), names@),
    ensures
        r matches Some(i) ==> i < names@.len() && names@[i as int]@ == name@,
        r is None ==> forall|j: int| 0 <= j < names@.len() ==> names@[j]@ != name@,
{
    match name_map_get(m, name) {
        Some(i) => Some(i as usize),
        None => None,
    }
}

/// Many images in one texture: its cels, and its animations and tilesets by
/// name. Animations and tilesets get ids scoped to the sprite map: the upper
/// 16 bits are the sprite map's id, the lower ones the index.
pub struct SpriteMap {
    id: Id<SpriteMapIdMarker>,
    cels: Vec<SpriteMapCel>,
    animation_names: Vec<String>,
    animation_ids: NameMap,
    animations: Vec<SpriteMapAnimation>,
    tileset_names: Vec<String>,
    tileset_ids: NameMap,
    tilesets: Vec<Tileset>,
}

impl Resource for SpriteMap {
    type Id = SpriteMapIdMarker;
}

/// Whether `a` comes before `b` in byte order, the order in which strings
/// compare.
pub open spec fn bytes_lt(a: Seq<u8>, b: Seq<u8>) -> bool
    decreases a.len(),
{
    if a.len() == 0 {
        b.len() > 0
    } else if b.len() == 0 {
        false
    } else if a[0] != b[0] {
        a[0] < b[0]
    } else {
        bytes_lt(a.drop_first(), b.drop_first())
    }
}

proof fn lemma_bytes_lt_irreflexive(a: Seq<u8>)
    ensures
        !bytes_lt(a, a),
    decreases a.len(),
{
    if a.len() > 0 {
        lemma_bytes_lt_irreflexive(a.drop_first());
    }
}

/// Whether the names are in strictly increasing byte order.
pub open spec fn sorted_names(names: Seq<String>) -> bool {
    forall|i: int, j: int|
        0 <= i < j < names.len() ==> bytes_lt(encode_utf8((#[trigger] names[i])@), encode_utf8((#[trigger] names[j])@))
}

proof fn lemma_sorted_distinct(names: Seq<String>)
    requires
        sorted_names(names),
    ensures
        distinct_names(names),
{
    assert forall|i: int, j: int| 0 <= i < j < names.len() implies #[trigger] names[i]@ != #[trigger] names[j]@ by {
        lemma_bytes_lt_irreflexive(encode_utf8(names[i]@));
    }
}

/// Whether the names are pairwise different.
pub open spec fn distinct_names(names: Seq<String>) -> bool {
    forall|i: int, j: int| 0 <= i < j < names.len() ==> #[trigger] names[i]@ != #[trigger] names[j]@
}

impl SpriteMap {
    pub closed spec fn id_spec(&self) -> u32 {
        self.id.val
    }

    /// The cels.
    pub closed spec fn cel_list(&self) -> Seq<SpriteMapCel> {
        self.cels@
    }

    /// The cels.
    pub fn cels(&self) -> (r: &Vec<SpriteMapCel>)
        ensures
            r@ == self.cel_list(),
    {
        &self.cels
    }

    /// The index of each animation name.
    pub closed spec fn animation_index(&self) -> Map<Seq<char>, u32> {
        name_map_entries(self.animation_ids)
    }

    /// The index of each tileset name.
    pub closed spec fn tileset_index(&self) -> Map<Seq<char>, u32> {
        name_map_entries(self.tileset_ids)
    }

    /// The animation names, in id order.
    pub closed spec fn animation_names(&self) -> Seq<String> {
        self.animation_names@
    }

    /// The animations, in id order.
    pub closed spec fn animations(&self) -> Seq<SpriteMapAnimation> {
        self.animations@
    }

    /// The tileset names, in id order.
    pub closed spec fn tileset_names(&self) -> Seq<String> {
        self.tileset_names@
    }

    /// The tilesets, in id order.
    pub closed spec fn tilesets(&self) -> Seq<Tileset> {
        self.tilesets@
    }

    /// Every sprite map is well formed.
    #[verifier::type_invariant]
    closed spec fn inv(&self) -> bool {
        self.wf()
    }

    /// Names and entries line up, names are distinct, every index fits in
    /// 16 bits, every animation is well formed and every tileset's cel exists.
    pub open spec fn wf(&self) -> bool {
        &&& self.id_spec() < 0x10000
        &&& self.animation_names().len() == self.animations().len() < 0x10000
        &&& self.tileset_names().len() == self.tilesets().len() < 0x10000
        &&& distinct_names(self.animation_names())
        &&& distinct_names(self.tileset_names())
        &&& sorted_names(self.animation_names())
        &&& sorted_names(self.tileset_names())
        &&& index_matches(self.animation_index(), self.animation_names())
        &&& index_matches(self.tileset_index(), self.tileset_names())
        &&& forall|i: int| 0 <= i < self.animations().len() ==> (#[trigger] self.animations()[i]).keyframes.wf()
        &&& forall|i: int| 0 <= i < self.tilesets().len() ==> (#[trigger] self.tilesets()[i]).cel < self.cel_list().len()
    }

    /// Builds a sprite map with id `id`. Animations and tilesets come in
    /// increasing order of name and get their ids in that order.
    pub fn new_in(
        id: Id<SpriteMapIdMarker>,
        cels: Vec<SpriteMapCel>,
        animations: Vec<(String, SpriteMapAnimation)>,
        tilesets: Vec<(String, Tileset)>,
    ) -> (r: Self)
        requires
            id.val < 0x10000,
            animations@.len() < 0x10000,
            tilesets@.len() < 0x10000,
            sorted_names(animations@.map_values(|p: (String, SpriteMapAnimation)| p.0)),
            sorted_names(tilesets@.map_values(|p: (String, Tileset)| p.0)),
            forall|i: int| 0 <= i < animations@.len() ==> (#[trigger] animations@[i]).1.keyframes.wf(),
            forall|i: int| 0 <= i < tilesets@.len() ==> (#[trigger] tilesets@[i]).1.cel < cels@.len(),
        ensures
            r.wf(),
            r.id_spec() == id.val,
            r.cel_list() == cels@,
            r.animation_names().len() == animations@.len(),
            r.tileset_names().len() == tilesets@.len(),
            forall|i: int| 0 <= i < animations@.len() ==> r.animation_names()[i] == (#[trigger] animations@[i]).0 && r.animations()[i] == animations@[i].1,
            forall|i: int| 0 <= i < tilesets@.len() ==> r.tileset_names()[i] == (#[trigger] tilesets@[i]).0 && r.tilesets()[i] == tilesets@[i].1,
    {
        proof {
            lemma_sorted_distinct(animations@.map_values(|p: (String, SpriteMapAnimation)| p.0));
            lemma_sorted_distinct(tilesets@.map_values(|p: (String, Tileset)| p.0));
        }
        let (animation_names, anims) = split_names(animations);
        let (tileset_names, sets) = split_names(tilesets);
        assert forall|i: int| 0 <= i < anims@.len() implies (#[trigger] anims@[i]).keyframes.wf() by {
            assert(animations@[i].1.keyframes.wf());
        }
        assert forall|i: int| 0 <= i < sets@.len() implies (#[trigger] sets@[i]).cel < cels@.len() by {
            assert(tilesets@[i].1.cel < cels@.len());
        }
        assert forall|i: int, j: int| 0 <= i < j < animation_names@.len() implies #[trigger] animation_names@[i]@ != #[trigger] animation_names@[j]@ by {
            assert(animations@.map_values(|p: (String, SpriteMapAnimation)| p.0)[i] == animations@[i].0);
            assert(animations@.map_values(|p: (String, SpriteMapAnimation)| p.0)[j] == animations@[j].0);
        }
        assert forall|i: int, j: int| 0 <= i < j < tileset_names@.len() implies #[trigger] tileset_names@[i]@ != #[trigger] tileset_names@[j]@ by {
            assert(tilesets@.map_values(|p: (String, Tileset)| p.0)[i] == tilesets@[i].0);
            assert(tilesets@.map_values(|p: (String, Tileset)| p.0)[j] == tilesets@[j].0);
        }
        assert forall|i: int, j: int| 0 <= i < j < animation_names@.len() implies bytes_lt(
            encode_utf8((#[trigger] animation_names@[i])@),
            encode_utf8((#[trigger] animation_names@[j])@),
        ) by {
            assert(animations@.map_values(|p: (String, SpriteMapAnimation)| p.0)[i] == animations@[i].0);
            assert(animations@.map_values(|p: (String, SpriteMapAnimation)| p.0)[j] == animations@[j].0);
        }
        assert forall|i: int, j: int| 0 <= i < j < tileset_names@.len() implies bytes_lt(
            encode_utf8((#[trigger] tileset_names@[i])@),
            encode_utf8((#[trigger] tileset_names@[j])@),
        ) by {
            assert(tilesets@.map_values(|p: (String, Tileset)| p.0)[i] == tilesets@[i].0);
            assert(tilesets@.map_values(|p: (String, Tileset)| p.0)[j] == tilesets@[j].0);
        }
        let animation_ids = build_index(&animation_names);
        let tileset_ids = build_index(&tileset_names);
        let r = SpriteMap {
            id,
            cels,
            animation_names,
            animation_ids,
            animations: anims,
            tileset_names,
            tileset_ids,
            tilesets: sets,
        };
        r
    }

    /// The id of this sprite map.
    pub fn id(&self) -> (r: Id<SpriteMapIdMarker>)
        ensures
            r.val == self.id_spec(),
    {
        self.id
    }

    /// The number of animations.
    pub fn animation_count(&self) -> (r: usize)
        ensures
            r == self.animations().len(),
    {
        self.animations.len()
    }

    /// The number of tilesets.
    pub fn tileset_count(&self) -> (r: usize)
        ensures
            r == self.tilesets().len(),
    {
        self.tilesets.len()
    }

    /// Whether an animation is named `name`.
    pub fn has_animation(&self, name: &str) -> (r: bool)
        ensures
            r == exists|i: int| 0 <= i < self.animation_names().len() && #[trigger] self.animation_names()[i]@ == name@,
    {
        proof {
            use_type_invariant(self);
        }
        let found = index_of(&self.animation_ids, &self.animation_names, name);
        proof {
            if let Some(i) = found {
                assert(self.animation_names()[i as int]@ == name@);
            }
        }
        found.is_some()
    }

    /// The id of the animation named `name`.
    pub fn get_animation_id(&self, name: &str) -> (r: Id<SpriteMapAnimation>)
        requires
            exists|i: int| 0 <= i < self.animation_names().len() && #[trigger] self.animation_names()[i]@ == name@,
        ensures
            r.val / 0x10000 == self.id_spec(),
            r.val % 0x10000 < self.animation_names().len(),
            r.val % 0x10000 < self.animations().len(),
            self.animation_names()[r.val as int % 0x10000]@ == name@,
    {
        proof {
            use_type_invariant(self);
        }
        let i = index_of(&self.animation_ids, &self.animation_names, name).unwrap();
        Id::new_split(self.id.val as u16, i as u16)
    }

    /// The animation with id `id`.
    pub fn get_animation(&self, id: Id<SpriteMapAnimation>) -> (r: &SpriteMapAnimation)
        requires
            id.val / 0x10000 == self.id_spec(),
            id.val % 0x10000 < self.animations().len(),
        ensures
            *r == self.animations()[id.val as int % 0x10000],
            r.keyframes.wf(),
    {
        proof {
            use_type_invariant(self);
        }
        &self.animations[id.lo() as usize]
    }

    /// Whether a tileset is named `name`.
    pub fn has_tileset(&self, name: &str) -> (r: bool)
        ensures
            r == exists|i: int| 0 <= i < self.tileset_names().len() && #[trigger] self.tileset_names()[i]@ == name@,
    {
        proof {
            use_type_invariant(self);
        }
        let found = index_of(&self.tileset_ids, &self.tileset_names, name);
        proof {
            if let Some(i) = found {
                assert(self.tileset_names()[i as int]@ == name@);
            }
        }
        found.is_some()
    }

    /// The id of the tileset named `name`.
    pub fn get_tileset_id(&self, name: &str) -> (r: Id<Tileset>)
        requires
            exists|i: int| 0 <= i < self.tileset_names().len() && #[trigger] self.tileset_names()[i]@ == name@,
        ensures
            r.val / 0x10000 == self.id_spec(),
            r.val % 0x10000 < self.tileset_names().len(),
            r.val % 0x10000 < self.tilesets().len(),
            self.tileset_names()[r.val as int % 0x10000]@ == name@,
    {
        proof {
            use_type_invariant(self);
        }
        let i = index_of(&self.tileset_ids, &self.tileset_names, name).unwrap();
        Id::new_split(self.id.val as u16, i as u16)
    }

    /// The tileset with id `id`, with the rectangle of its cel.
    pub fn get_tileset(&self, id: Id<Tileset>) -> (r: ResolvedTileset)
        requires
            id.val / 0x10000 == self.id_spec(),
            id.val % 0x10000 < self.tilesets().len(),
        ensures
            r.grid_size == self.tilesets()[id.val as int % 0x10000].grid_size,
            r.rect == self.cel_list()[self.tilesets()[id.val as int % 0x10000].cel as int].tex_rect,
    {
        proof {
            use_type_invariant(self);
        }
        let tileset = self.tilesets[id.lo() as usize];
        ResolvedTileset { rect: self.cels[tileset.cel as usize].tex_rect, grid_size: tileset.grid_size }
    }
}

/// Splits (name, value) pairs into the names and the values, in order.
fn split_names<T>(entries: Vec<(String, T)>) -> (r: (Vec<String>, Vec<T>))
    ensures
        r.0@.len() == entries@.len(),
        r.1@.len() == entries@.len(),
        forall|i: int| 0 <= i < entries@.len() ==> r.0@[i] == (#[trigger] entries@[i]).0 && r.1@[i] == entries@[i].1,
{
    let mut rest = entries;
    let mut names: Vec<String> = Vec::new();
    let mut values: Vec<T> = Vec::new();
    let n = rest.len();
    while rest.len() > 0
        invariant
            rest@.len() + names@.len() == n,
            names@.len() == values@.len(),
            n == entries@.len(),
            rest@ == entries@.subrange(0, rest@.len() as int),
            forall|i: int| 0 <= i < names@.len() ==> names@[i] == entries@[n - 1 - i].0 && values@[i] == entries@[n - 1 - i].1,
        decreases rest@.len(),
    {
        let (name, value) = rest.pop().unwrap();
        names.push(name);
        values.push(value);
        assert(rest@ =~= entries@.subrange(0, rest@.len() as int));
    }
    let mut out_names: Vec<String> = Vec::new();
    let mut out_values: Vec<T> = Vec::new();
    while names.len() > 0
        invariant
            names@.len() == values@.len(),
            out_names@.len() == out_values@.len(),
            names@.len() + out_names@.len() == n,
            n == entries@.len(),
            forall|i: int| 0 <= i < names@.len() ==> names@[i] == entries@[n - 1 - i].0 && values@[i] == entries@[n - 1 - i].1,
            forall|i: int| 0 <= i < out_names@.len() ==> out_names@[i] == entries@[i].0 && out_values@[i] == entries@[i].1,
        decreases names@.len(),
    {
        let name = names.pop().unwrap();
        let value = values.pop().unwrap();
        out_names.push(name);
        out_values.push(value);
    }
    (out_names, out_values)
}

} // verus!
