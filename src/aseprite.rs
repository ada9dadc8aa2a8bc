use vstd::prelude::*;

use crate::animation::{duration_upto, Animation, Keyframe};
use vstd::string::StringSliceAdditionalSpecFns;

use crate::slices::{copy_of, same_bytes};
use crate::sprite_map::{Rect, SpriteMapAnimation};

verus! {

/// The byte `#`, which separates the parts of a cel name.
pub const NAME_SEP: u8 = 35;

/// The index of the first byte `c` in `b` at or after `from`, or the length
/// of `b` when there is none.
pub open spec fn first_byte(b: Seq<u8>, c: u8, from: int) -> int
    decreases b.len() - from,
{
    if from < 0 || from >= b.len() {
        b.len() as int
    } else if b[from] == c {
        from
    } else {
        first_byte(b, c, from + 1)
    }
}

/// The value of a string of decimal digits.
pub open spec fn digits_value(s: Seq<u8>) -> int
    decreases s.len(),
{
    if s.len() == 0 {
        0
    } else {
        digits_value(s.drop_last()) * 10 + (s.last() - 48)
    }
}

/// `s` without a leading `+`.
pub open spec fn unsigned_part(s: Seq<u8>) -> Seq<u8> {
    if s.len() > 0 && s[0] == 43 {
        s.drop_first()
    } else {
        s
    }
}

/// Whether `s` reads as a `u8` in decimal: an optional `+`, then at least one
/// digit, with a value of at most 255.
pub open spec fn parses_u8(s: Seq<u8>) -> bool {
    let d = unsigned_part(s);
    &&& d.len() > 0
    &&& forall|i: int| 0 <= i < d.len() ==> 48 <= #[trigger] d[i] <= 57
    &&& digits_value(d) <= 255
}

/// Whether `b` is a cel name of the form `anim#frame#layer`, where `frame`
/// reads as a `u8` and `layer` may hold further `#`.
pub open spec fn cel_name_ok(b: Seq<u8>) -> bool {
    let i = first_byte(b, NAME_SEP, 0);
    let j = first_byte(b, NAME_SEP, i + 1);
    j < b.len() && parses_u8(b.subrange(i + 1, j))
}

/// The animation part of a cel name.
pub open spec fn cel_anim(b: Seq<u8>) -> Seq<u8> {
    b.subrange(0, first_byte(b, NAME_SEP, 0))
}

/// The frame part of a cel name, as a number.
pub open spec fn cel_frame(b: Seq<u8>) -> int {
    let i = first_byte(b, NAME_SEP, 0);
    digits_value(unsigned_part(b.subrange(i + 1, first_byte(b, NAME_SEP, i + 1))))
}

/// The layer part of a cel name.
pub open spec fn cel_layer(b: Seq<u8>) -> Seq<u8> {
    let i = first_byte(b, NAME_SEP, 0);
    b.subrange(first_byte(b, NAME_SEP, i + 1) + 1, b.len() as int)
}

proof fn lemma_first_byte_bounds(b: Seq<u8>, c: u8, from: int)
    requires
        0 <= from,
    ensures
        from <= first_byte(b, c, from) <= b.len() || (from > b.len() && first_byte(b, c, from) == b.len()),
        first_byte(b, c, from) < b.len() ==> b[first_byte(b, c, from)] == c,
        forall|k: int| from <= k < first_byte(b, c, from) ==> b[k] != c,
    decreases b.len() - from,
{
    if from < b.len() && b[from] != c {
        lemma_first_byte_bounds(b, c, from + 1);
    }
}

/// The index of the first byte `c` at or after `from`, or the length.
pub(crate) fn find_byte(b: &[u8], c: u8, from: usize) -> (r: usize)
    requires
        from <= b@.len(),
    ensures
        r == first_byte(b@, c, from as int),
        from <= r <= b@.len(),
{
    let mut k = from;
    while k < b.len() && b[k] != c
        invariant
            from <= k <= b@.len(),
            first_byte(b@, c, k as int) == first_byte(b@, c, from as int),
        decreases b@.len() - k,
    {
        k = k + 1;
    }
    k
}

proof fn lemma_digits_value_prefix(s: Seq<u8>, k: int)
    requires
        0 <= k <= s.len(),
        forall|i: int| 0 <= i < s.len() ==> 48 <= #[trigger] s[i] <= 57,
    ensures
        0 <= digits_value(s.subrange(0, k)) <= digits_value(s),
    decreases s.len() - k,
{
    if k < s.len() {
        lemma_digits_value_prefix(s, k + 1);
        assert(s.subrange(0, k + 1).drop_last() =~= s.subrange(0, k));
    } else {
        assert(s.subrange(0, k) =~= s);
    }
    lemma_digits_value_nonneg(s);
}

proof fn lemma_digits_value_nonneg(s: Seq<u8>)
    requires
        forall|i: int| 0 <= i < s.len() ==> 48 <= #[trigger] s[i] <= 57,
    ensures
        0 <= digits_value(s),
    decreases s.len(),
{
    if s.len() > 0 {
        lemma_digits_value_nonneg(s.drop_last());
    }
}

/// Reads the frame number `b[from..to]`, which must read as a `u8`.
pub(crate) fn parse_frame(b: &[u8], from: usize, to: usize) -> (r: u8)
    requires
        from <= to <= b@.len(),
        parses_u8(b@.subrange(from as int, to as int)),
    ensures
        r == digits_value(unsigned_part(b@.subrange(from as int, to as int))),
{
    let ghost s = b@.subrange(from as int, to as int);
    let ghost d = unsigned_part(s);
    let mut start = from;
    if from < to && b[from] == 43 {
        start = from + 1;
    }
    assert(d =~= b@.subrange(start as int, to as int));
    let mut v: u16 = 0;
    let mut k = start;
    while k < to
        invariant
            start <= k <= to <= b@.len(),
            d =~= b@.subrange(start as int, to as int),
            forall|i: int| 0 <= i < d.len() ==> 48 <= #[trigger] d[i] <= 57,
            digits_value(d) <= 255,
            v == digits_value(d.subrange(0, k - start)),
        decreases to - k,
    {
        proof {
            lemma_digits_value_prefix(d, k - start + 1);
            assert(d.subrange(0, k - start + 1).drop_last() =~= d.subrange(0, k - start));
            assert(d[k - start] == b@[k as int]);
        }
        v = v * 10 + (b[k] - 48) as u16;
        k = k + 1;
    }
    assert(d.subrange(0, to - start) =~= d);
    v as u8
}

/// Whether `b[from..to]` reads as a `u8` in decimal.
fn reads_as_u8(b: &[u8], from: usize, to: usize) -> (r: bool)
    requires
        from <= to <= b@.len(),
    ensures
        r == parses_u8(b@.subrange(from as int, to as int)),
{
    let ghost s = b@.subrange(from as int, to as int);
    let ghost d = unsigned_part(s);
    let mut start = from;
    if from < to && b[from] == 43 {
        start = from + 1;
    }
    assert(d =~= b@.subrange(start as int, to as int));
    if start == to {
        return false;
    }
    let mut v: u16 = 0;
    let mut k = start;
    while k < to
        invariant
            start <= k <= to <= b@.len(),
            d =~= b@.subrange(start as int, to as int),
            forall|i: int| 0 <= i < k - start ==> 48 <= #[trigger] d[i] <= 57,
            v == digits_value(d.subrange(0, k - start)),
            v <= 255,
            s == b@.subrange(from as int, to as int),
            d == unsigned_part(s),
        decreases to - k,
    {
        if b[k] < 48 || b[k] > 57 {
            assert(d[k - start] == b@[k as int]);
            assert(unsigned_part(s) == d);
            assert(!parses_u8(s));
            return false;
        }
        proof {
            assert(d.subrange(0, k - start + 1).drop_last() =~= d.subrange(0, k - start));
            assert(d[k - start] == b@[k as int]);
        }
        let nv = v * 10 + (b[k] - 48) as u16;
        if nv > 255 {
            proof {
                let p = d.subrange(0, k - start + 1);
                assert(digits_value(p) == nv);
                assert(unsigned_part(s) == d);
                if forall|i: int| 0 <= i < d.len() ==> 48 <= #[trigger] d[i] <= 57 {
                    lemma_digits_value_prefix(d, k - start + 1);
                    assert(digits_value(d) > 255);
                }
                assert(!parses_u8(s));
            }
            return false;
        }
        v = nv;
        k = k + 1;
    }
    assert(d.subrange(0, to - start) =~= d);
    true
}

/// Whether `name` is a cel name of the form `anim#frame#layer`.
pub fn cel_name_is_valid(name: &[u8]) -> (r: bool)
    ensures
        r == cel_name_ok(name@),
{
    proof {
        lemma_first_byte_bounds(name@, NAME_SEP, 0);
    }
    let n = name.len();
    let i = find_byte(name, NAME_SEP, 0);
    if i == n {
        assert(first_byte(name@, NAME_SEP, i + 1) == name@.len());
        return false;
    }
    proof {
        lemma_first_byte_bounds(name@, NAME_SEP, i + 1);
    }
    let j = find_byte(name, NAME_SEP, i + 1);
    if j == n {
        return false;
    }
    reads_as_u8(name, i + 1, j)
}

/// Splits a cel name `anim#frame#layer` into its animation name, frame number
/// and layer name.
pub fn split_cel_name(name: &[u8]) -> (r: (&[u8], u8, &[u8]))
    requires
        cel_name_ok(name@),
    ensures
        r.0@ == cel_anim(name@),
        r.1 == cel_frame(name@),
        r.2@ == cel_layer(name@),
{
    proof {
        lemma_first_byte_bounds(name@, NAME_SEP, 0);
    }
    let n = name.len();
    let i = find_byte(name, NAME_SEP, 0);
    proof {
        if i as int == name@.len() {
            assert(first_byte(name@, NAME_SEP, i + 1) == name@.len());
        }
        assert(i < name@.len());
        lemma_first_byte_bounds(name@, NAME_SEP, i + 1);
    }
    let j = find_byte(name, NAME_SEP, i + 1);
    let frame = parse_frame(name, i + 1, j);
    let anim = vstd::slice::slice_subrange(name, 0, i);
    let layer = vstd::slice::slice_subrange(name, j + 1, n);
    (anim, frame, layer)
}

/// The tag that keeps a cel out of exported animations.
pub const TAG_NO_EXPORT: &'static str = "no-export";

/// The order in which an animation's frames play.
#[derive(Clone, Copy, Debug, PartialEq, Eq, Structural)]
pub enum AsepriteAnimDirection {
    PingPong,
    Forward,
    Backward,
}

/// A named animation of an export.
pub struct AsepriteAnim {
    pub name: String,
    pub direction: AsepriteAnimDirection,
}

/// A cel of an export, named `anim#frame#layer`.
pub struct AsepriteCel {
    pub name: String,
    /// How long its frame lasts.
    pub duration: u16,
    /// Its place in the packed texture.
    pub sprite_tex_rect: Rect,
    /// Its place in the source image.
    pub source_rect: Rect,
    /// The words of its tag data.
    pub tags: Vec<Vec<u8>>,
}

/// The UTF-8 bytes of `s`.
pub open spec fn bytes_of(s: String) -> Seq<u8> {
    vstd::utf8::encode_utf8(s@)
}

/// The frame that cel `c` adds to the animation whose name has bytes `anim`,
/// or `None` when it belongs to another animation or is tagged `no-export`.
pub open spec fn frame_in(c: AsepriteCel, anim: Seq<u8>) -> Option<int> {
    if cel_anim(bytes_of(c.name)) == anim && !(exists|t: int|
        0 <= t < c.tags@.len() && #[trigger] c.tags@[t]@ == TAG_NO_EXPORT.spec_bytes()) {
        Some(cel_frame(bytes_of(c.name)))
    } else {
        None
    }
}

/// The indices, in order, of the first `n` cels that add to frame `f`.
pub open spec fn frame_layers(cels: Seq<AsepriteCel>, anim: Seq<u8>, f: int, n: int) -> Seq<u16>
    decreases n,
{
    if n <= 0 {
        Seq::empty()
    } else if frame_in(cels[n - 1], anim) == Some(f) {
        frame_layers(cels, anim, f, n - 1).push((n - 1) as u16)
    } else {
        frame_layers(cels, anim, f, n - 1)
    }
}

/// The duration of the last of the first `n` cels that add to frame `f`.
pub open spec fn frame_duration(cels: Seq<AsepriteCel>, anim: Seq<u8>, f: int, n: int) -> u16
    decreases n,
{
    if n <= 0 {
        0
    } else if frame_in(cels[n - 1], anim) == Some(f) {
        cels[n - 1].duration
    } else {
        frame_duration(cels, anim, f, n - 1)
    }
}

/// The frames numbered below `f` to which some cel adds, in increasing
/// order, each as (duration, cel indices).
pub open spec fn grouped_frames(cels: Seq<AsepriteCel>, anim: Seq<u8>, f: int) -> Seq<(u16, Seq<u16>)>
    decreases f,
{
    if f <= 0 {
        Seq::empty()
    } else if frame_layers(cels, anim, f - 1, cels.len() as int).len() > 0 {
        grouped_frames(cels, anim, f - 1).push(
            (
                frame_duration(cels, anim, f - 1, cels.len() as int),
                frame_layers(cels, anim, f - 1, cels.len() as int),
            ),
        )
    } else {
        grouped_frames(cels, anim, f - 1)
    }
}

/// The number of keyframes played for `n` frames: a ping-pong adds the
/// frames between the first and the last once more, backwards.
pub open spec fn directed_len(dir: AsepriteAnimDirection, n: int) -> int {
    if dir == AsepriteAnimDirection::PingPong && n >= 2 {
        2 * n - 2
    } else {
        n
    }
}

/// The frame played as keyframe `i` of `n` frames.
pub open spec fn directed_index(dir: AsepriteAnimDirection, n: int, i: int) -> int {
    match dir {
        AsepriteAnimDirection::Forward => i,
        AsepriteAnimDirection::Backward => n - 1 - i,
        AsepriteAnimDirection::PingPong => if i < n {
            i
        } else {
            2 * n - 2 - i
        },
    }
}

/// The sum of the durations of the first `k` keyframes played.
pub open spec fn directed_total(dir: AsepriteAnimDirection, g: Seq<(u16, Seq<u16>)>, k: int) -> int
    decreases k,
{
    if k <= 0 {
        0
    } else {
        directed_total(dir, g, k - 1) + g[directed_index(dir, g.len() as int, k - 1)].0
    }
}

/// The frames of an animation being gathered: for each frame number, its
/// duration and its cel indices.
#[verifier::external_body]
pub struct FrameMap {
    map: hashbrown::HashMap<u8, (u16, Vec<u16>)>,
}

/// What a `FrameMap` holds.
pub uninterp spec fn frame_map_entries(m: FrameMap) -> Map<u8, (u16, Seq<u16>)>;

/// Relies on `hashbrown::HashMap::new`: the map is empty.
#[verifier::external_body]
fn frame_map_new() -> (r: FrameMap)
    ensures
        frame_map_entries(r).dom() == Set::<u8>::empty(),
{
    FrameMap { map: hashbrown::HashMap::new() }
}

/// Relies on `hashbrown::HashMap::get`: the value stored under `k`, if any.
#[verifier::external_body]
fn frame_map_get(m: &FrameMap, k: u8) -> (r: Option<&(u16, Vec<u16>)>)
    ensures
        r is Some <==> frame_map_entries(*m).contains_key(k),
        r matches Some(v) ==> frame_map_entries(*m)[k] == (v.0, v.1@),
{
    m.map.get(&k)
}

/// Relies on `hashbrown::HashMap::insert`: `v` is stored under `k`, in
/// place of what was there.
#[verifier::external_body]
fn frame_map_insert(m: &mut FrameMap, k: u8, v: (u16, Vec<u16>))
    ensures
        frame_map_entries(*final(m)) == frame_map_entries(*old(m)).insert(k, (v.0, v.1@)),
{
    m.map.insert(k, v);
}

/// Relies on `hashbrown::HashMap::into_iter`: every entry once, in no
/// particular order.
#[verifier::external_body]
fn frame_map_into_entries(m: FrameMap) -> (r: Vec<(u8, (u16, Vec<u16>))>)
    ensures
        forall|i: int| 0 <= i < r@.len() ==> frame_map_entries(m).contains_key(#[trigger] r@[i].0)
            && frame_map_entries(m)[r@[i].0] == (r@[i].1.0, r@[i].1.1@),
        forall|i: int, j: int| 0 <= i < j < r@.len() ==> #[trigger] r@[i].0 != #[trigger] r@[j].0,
        forall|k: u8| frame_map_entries(m).contains_key(k) ==> exists|i: int| 0 <= i < r@.len() && #[trigger] r@[i].0 == k,
{
    m.map.into_iter().collect()
}

/// The frame that `cel` adds to the animation whose name has bytes `anim`.
fn cel_frame_in(cel: &AsepriteCel, anim: &[u8]) -> (r: Option<u8>)
    requires
        cel_name_ok(bytes_of(cel.name)),
    ensures
        r matches Some(f) ==> frame_in(*cel, anim@) == Some(f as int),
        r is None ==> frame_in(*cel, anim@) is None,
{
    let bytes = cel.name.as_str().as_bytes();
    let (name, frame, _layer) = split_cel_name(bytes);
    if !same_bytes(name, anim) {
        return None;
    }
    let mut t: usize = 0;
    while t < cel.tags.len()
        invariant
            t <= cel.tags@.len(),
            forall|u: int| 0 <= u < t ==> cel.tags@[u]@ != TAG_NO_EXPORT.spec_bytes(),
        decreases cel.tags@.len() - t,
    {
        if same_bytes(cel.tags[t].as_slice(), TAG_NO_EXPORT.as_bytes()) {
            assert(cel.tags@[t as int]@ == TAG_NO_EXPORT.spec_bytes());
            return None;
        }
        t = t + 1;
    }
    Some(frame)
}

impl SpriteMapAnimation {
    /// The animation `fts` of an export: its cels grouped by frame number,
    /// each frame lasting as long as its last cel and showing its cels'
    /// indices in order, frames in increasing number, then ordered by the
    /// animation's direction. Cels tagged `no-export` are left out.
    pub fn from_aseprite(fts: &AsepriteAnim, all_cels: &Vec<AsepriteCel>) -> (r: Option<SpriteMapAnimation>)
        requires
            all_cels@.len() <= 0x10000,
            forall|k: int| 0 <= k < all_cels@.len() ==> cel_name_ok(bytes_of(#[trigger] all_cels@[k].name)),
        ensures
            ({
                let g = grouped_frames(all_cels@, bytes_of(fts.name), 256);
                &&& r is Some <==> (g.len() > 0 && directed_total(fts.direction, g, directed_len(fts.direction, g.len() as int)) <= u16::MAX)
                &&& r matches Some(a) ==> {
                    &&& a.keyframes.wf()
                    &&& a.keyframes.frames().len() == directed_len(fts.direction, g.len() as int)
                    &&& forall|i: int| 0 <= i < a.keyframes.frames().len() ==> (#[trigger] a.keyframes.frames()[i]).duration_ms
                        == g[directed_index(fts.direction, g.len() as int, i)].0
                        && a.keyframes.frames()[i].value@ == g[directed_index(fts.direction, g.len() as int, i)].1
                }
            }),
    {
        let anim = fts.name.as_str().as_bytes();
        let ghost a = anim@;
        let ghost cels = all_cels@;
        let mut frames = frame_map_new();
        let mut k: usize = 0;
        while k < all_cels.len()
            invariant
                k <= all_cels@.len() <= 0x10000,
                cels == all_cels@,
                a == anim@,
                forall|j: int| 0 <= j < all_cels@.len() ==> cel_name_ok(bytes_of(#[trigger] all_cels@[j].name)),
                forall|f: u8| #[trigger] frame_map_entries(frames).contains_key(f) <==> frame_layers(cels, a, f as int, k as int).len() > 0,
                forall|f: u8| #[trigger] frame_map_entries(frames).contains_key(f) ==> frame_map_entries(frames)[f] == (
                    frame_duration(cels, a, f as int, k as int),
                    frame_layers(cels, a, f as int, k as int),
                ),
            decreases all_cels@.len() - k,
        {
            let found = cel_frame_in(&all_cels[k], anim);
            match found {
                Some(fi) => {
                    let mut layers = match frame_map_get(&frames, fi) {
                        Some(e) => copy_of(e.1.as_slice()),
                        None => Vec::new(),
                    };
                    layers.push(k as u16);
                    frame_map_insert(&mut frames, fi, (all_cels[k].duration, layers));
                },
                None => {},
            }
            k = k + 1;
        }
        let entries = frame_map_into_entries(frames);
        let ghost n = cels.len() as int;
        let mut buckets: Vec<(u16, Vec<u16>)> = Vec::with_capacity(256);
        let mut f: usize = 0;
        while f < 256
            invariant
                f <= 256,
                buckets@.len() == f,
                forall|g: int| 0 <= g < f ==> (#[trigger] buckets@[g]).1@ == Seq::<u16>::empty() && buckets@[g].0 == 0,
            decreases 256 - f,
        {
            buckets.push((0, Vec::new()));
            f = f + 1;
        }
        let ghost mut done: Set<u8> = Set::empty();
        let mut i: usize = 0;
        while i < entries.len()
            invariant
                i <= entries@.len(),
                buckets@.len() == 256,
                n == cels.len(),
                forall|j: int| 0 <= j < entries@.len() ==> frame_map_entries(frames).contains_key(#[trigger] entries@[j].0)
                    && frame_map_entries(frames)[entries@[j].0] == (entries@[j].1.0, entries@[j].1.1@),
                forall|x: int, y: int| 0 <= x < y < entries@.len() ==> #[trigger] entries@[x].0 != #[trigger] entries@[y].0,
                forall|f: u8| #[trigger] frame_map_entries(frames).contains_key(f) ==> frame_map_entries(frames)[f] == (
                    frame_duration(cels, a, f as int, n),
                    frame_layers(cels, a, f as int, n),
                ),
                forall|j: int| 0 <= j < i ==> done.contains(#[trigger] entries@[j].0),
                forall|j: int| i <= j < entries@.len() ==> !done.contains(#[trigger] entries@[j].0),
                forall|g: u8| #[trigger] done.contains(g) ==> frame_map_entries(frames).contains_key(g),
                forall|g: int| 0 <= g < 256 ==> (done.contains(g as u8) ==> (#[trigger] buckets@[g]).1@ == frame_layers(cels, a, g, n)
                    && buckets@[g].0 == frame_duration(cels, a, g, n)),
                forall|g: int| 0 <= g < 256 ==> (!done.contains(g as u8) ==> (#[trigger] buckets@[g]).1@ == Seq::<u16>::empty()
                    && buckets@[g].0 == 0),
            decreases entries@.len() - i,
        {
            let key = entries[i].0;
            let d = entries[i].1.0;
            let v = copy_of(entries[i].1.1.as_slice());
            buckets.set(key as usize, (d, v));
            proof {
                assert forall|j: int| i + 1 <= j < entries@.len() implies !done.insert(key).contains(#[trigger] entries@[j].0) by {
                    assert(entries@[i as int].0 != entries@[j].0);
                }
                assert forall|g: int| 0 <= g < 256 implies (!done.insert(key).contains(g as u8) ==> (#[trigger] buckets@[g]).1@
                    == Seq::<u16>::empty() && buckets@[g].0 == 0) by {
                    if g != key as int {
                        assert(g as u8 != key);
                    }
                }
                assert forall|g: int| 0 <= g < 256 implies (done.insert(key).contains(g as u8) ==> (#[trigger] buckets@[g]).1@
                    == frame_layers(cels, a, g, n) && buckets@[g].0 == frame_duration(cels, a, g, n)) by {
                    if g != key as int {
                        assert(g as u8 != key);
                    }
                }
                done = done.insert(key);
            }
            i = i + 1;
        }
        proof {
            assert forall|g: int| 0 <= g < 256 implies (#[trigger] buckets@[g]).1@ == frame_layers(cels, a, g, n)
                && buckets@[g].0 == frame_duration(cels, a, g, n) by {
                let gu = g as u8;
                assert(gu as int == g);
                if frame_map_entries(frames).contains_key(gu) {
                    let j = choose|j: int| 0 <= j < entries@.len() && #[trigger] entries@[j].0 == gu;
                    assert(done.contains(gu));
                } else {
                    assert(!done.contains(gu));
                    lemma_no_layers_no_duration(cels, a, g, n);
                    assert(frame_layers(cels, a, g, n) =~= Seq::<u16>::empty());
                }
            }
        }
        let mut grouped: Vec<(u16, Vec<u16>)> = Vec::new();
        let ghost n = cels.len() as int;
        let mut f: usize = 0;
        while f < 256
            invariant
                f <= 256,
                buckets@.len() == 256,
                n == cels.len(),
                forall|g: int| 0 <= g < 256 ==> (#[trigger] buckets@[g]).1@ == frame_layers(cels, a, g, n)
                    && buckets@[g].0 == frame_duration(cels, a, g, n),
                grouped@.len() == grouped_frames(cels, a, f as int).len(),
                forall|i: int| 0 <= i < grouped@.len() ==> (#[trigger] grouped@[i]).0 == grouped_frames(cels, a, f as int)[i].0
                    && grouped@[i].1@ == grouped_frames(cels, a, f as int)[i].1,
            decreases 256 - f,
        {
            if buckets[f].1.len() > 0 {
                let layers = copy_of(buckets[f].1.as_slice());
                grouped.push((buckets[f].0, layers));
            }
            f = f + 1;
        }
        let ghost g = grouped_frames(cels, a, 256);
        proof {
            lemma_grouped_frames_len(cels, a, 256);
        }
        let glen = grouped.len();
        if glen == 0 {
            return None;
        }
        let total: usize = if fts.direction == AsepriteAnimDirection::PingPong && glen >= 2 {
            2 * glen - 2
        } else {
            glen
        };
        let mut keyframes: Vec<Keyframe<Vec<u16>>> = Vec::new();
        let mut sum: u32 = 0;
        let mut i: usize = 0;
        while i < total
            invariant
                glen == g.len() == grouped@.len(),
                0 < glen <= 256,
                total == directed_len(fts.direction, glen as int),
                i <= total,
                forall|j: int| 0 <= j < grouped@.len() ==> (#[trigger] grouped@[j]).0 == g[j].0 && grouped@[j].1@ == g[j].1,
                keyframes@.len() == i,
                forall|j: int| 0 <= j < i ==> (#[trigger] keyframes@[j]).duration_ms == g[directed_index(fts.direction, glen as int, j)].0
                    && keyframes@[j].value@ == g[directed_index(fts.direction, glen as int, j)].1,
                duration_upto(keyframes@, i as int) == directed_total(fts.direction, g, i as int),
                sum == directed_total(fts.direction, g, i as int),
                sum <= i * 65535,
                total <= 510,
            decreases total - i,
        {
            let idx: usize = match fts.direction {
                AsepriteAnimDirection::Forward => i,
                AsepriteAnimDirection::Backward => glen - 1 - i,
                AsepriteAnimDirection::PingPong => if i < glen {
                    i
                } else {
                    2 * glen - 2 - i
                },
            };
            let value = copy_of(grouped[idx].1.as_slice());
            let ghost old_kf = keyframes@;
            keyframes.push(Keyframe::new(grouped[idx].0, value));
            let d = grouped[idx].0;
            assert(sum + d <= (i + 1) * 65535) by (nonlinear_arith)
                requires
                    sum <= i * 65535,
                    d <= 65535,
            ;
            sum = sum + grouped[idx].0 as u32;
            proof {
                assert(keyframes@.drop_last() == old_kf);
                lemma_duration_upto_push(old_kf, keyframes@);
            }
            i = i + 1;
        }
        if sum > 65535 {
            return None;
        }
        Some(SpriteMapAnimation { keyframes: Animation::new(keyframes) })
    }
}

proof fn lemma_no_layers_no_duration(cels: Seq<AsepriteCel>, anim: Seq<u8>, f: int, n: int)
    requires
        frame_layers(cels, anim, f, n).len() == 0,
    ensures
        frame_duration(cels, anim, f, n) == 0,
    decreases n,
{
    if n > 0 && frame_in(cels[n - 1], anim) != Some(f) {
        lemma_no_layers_no_duration(cels, anim, f, n - 1);
    }
}

proof fn lemma_grouped_frames_len(cels: Seq<AsepriteCel>, anim: Seq<u8>, f: int)
    requires
        f >= 0,
    ensures
        grouped_frames(cels, anim, f).len() <= f,
    decreases f,
{
    if f > 0 {
        lemma_grouped_frames_len(cels, anim, f - 1);
    }
}

proof fn lemma_duration_upto_push<T>(a: Seq<Keyframe<T>>, b: Seq<Keyframe<T>>)
    requires
        b.len() == a.len() + 1,
        forall|j: int| 0 <= j < a.len() ==> b[j] == a[j],
    ensures
        duration_upto(b, b.len() as int) == duration_upto(a, a.len() as int) + b[a.len() as int].duration_ms,
{
    lemma_duration_upto_prefix(a, b, a.len() as int);
}

proof fn lemma_duration_upto_prefix<T>(a: Seq<Keyframe<T>>, b: Seq<Keyframe<T>>, k: int)
    requires
        0 <= k <= a.len(),
        a.len() <= b.len(),
        forall|j: int| 0 <= j < a.len() ==> b[j] == a[j],
    ensures
        duration_upto(b, k) == duration_upto(a, k),
    decreases k,
{
    if k > 0 {
        lemma_duration_upto_prefix(a, b, k - 1);
    }
}

} // verus!
