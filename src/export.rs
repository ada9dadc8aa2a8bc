use vstd::prelude::*;
use vstd::string::StringSliceAdditionalSpecFns;

use crate::aseprite::{
    bytes_of, cel_layer, cel_name_ok, digits_value, first_byte, parse_frame, parses_u8,
    split_cel_name, unsigned_part, AsepriteCel,
};
use crate::aseprite::find_byte;
use crate::slices::{copy_of, same_bytes};
use crate::sprite_map::Tileset;

verus! {

/// The separator of the entries of a layer's tag data.
pub const ENTRY_SEP: u8 = 44;

/// The separator of a key from its value in an entry of tag data.
pub const KEY_SEP: u8 = 61;

/// The separator of the words of a cel's tag data.
pub const WORD_SEP: u8 = 32;

/// The tag data key that marks a layer as a tileset.
pub const TAG_TILESET: &'static str = "tileset";

/// The tag data key that gives a tileset's grid size.
pub const TAG_TILE_SIZE: &'static str = "tile-size";

/// The pieces of `b` between the bytes `c`, one more than there are `c`.
pub open spec fn pieces(b: Seq<u8>, c: u8) -> Seq<Seq<u8>>
    decreases b.len(),
{
    if b.len() == 0 {
        seq![Seq::empty()]
    } else {
        let p = pieces(b.drop_last(), c);
        if b.last() == c {
            p.push(Seq::empty())
        } else {
            p.update(p.len() - 1, p.last().push(b.last()))
        }
    }
}

proof fn lemma_pieces_len(b: Seq<u8>, c: u8)
    ensures
        pieces(b, c).len() >= 1,
    decreases b.len(),
{
    if b.len() > 0 {
        lemma_pieces_len(b.drop_last(), c);
    }
}

/// The views of byte vectors.
pub open spec fn views(v: Seq<Vec<u8>>) -> Seq<Seq<u8>> {
    v.map_values(|x: Vec<u8>| x@)
}

/// Splits `b` at each byte `c`.
pub fn split_bytes(b: &[u8], c: u8) -> (r: Vec<Vec<u8>>)
    ensures
        views(r@) == pieces(b@, c),
{
    let mut out: Vec<Vec<u8>> = Vec::new();
    let mut cur: Vec<u8> = Vec::new();
    let mut i: usize = 0;
    assert(views(out@).push(cur@) =~= pieces(b@.subrange(0, 0), c));
    while i < b.len()
        invariant
            i <= b@.len(),
            views(out@).push(cur@) == pieces(b@.subrange(0, i as int), c),
        decreases b@.len() - i,
    {
        let ghost before = b@.subrange(0, i as int);
        proof {
            lemma_pieces_len(before, c);
            assert(b@.subrange(0, i + 1).drop_last() =~= before);
        }
        if b[i] == c {
            out.push(cur);
            cur = Vec::new();
            assert(views(out@).push(cur@) =~= pieces(before, c).push(Seq::empty()));
        } else {
            let ghost old_cur = cur@;
            cur.push(b[i]);
            assert(views(out@).push(cur@) =~= pieces(before, c).update(
                pieces(before, c).len() - 1,
                old_cur.push(b@[i as int]),
            ));
        }
        i = i + 1;
    }
    out.push(cur);
    assert(b@.subrange(0, b@.len() as int) =~= b@);
    assert(views(out@) =~= pieces(b@, c));
    out
}

/// The key of a `key=value` entry: all of it when it has no `=`.
pub open spec fn entry_key(e: Seq<u8>) -> Seq<u8> {
    e.subrange(0, first_byte(e, KEY_SEP, 0))
}

/// The value of a `key=value` entry: empty when it has no `=`.
pub open spec fn entry_value(e: Seq<u8>) -> Seq<u8> {
    let i = first_byte(e, KEY_SEP, 0);
    if i < e.len() {
        e.subrange(i + 1, e.len() as int)
    } else {
        Seq::empty()
    }
}

/// The value of the last of `entries` whose key is `key`.
pub open spec fn tag_value(entries: Seq<Seq<u8>>, key: Seq<u8>) -> Option<Seq<u8>>
    decreases entries.len(),
{
    if entries.len() == 0 {
        None
    } else if entry_key(entries.last()) == key {
        Some(entry_value(entries.last()))
    } else {
        tag_value(entries.drop_last(), key)
    }
}

/// The value of `key` in tag data `k1=v1,k2=v2,...`; a later entry wins.
pub open spec fn data_value(data: Seq<u8>, key: Seq<u8>) -> Option<Seq<u8>> {
    tag_value(pieces(data, ENTRY_SEP), key)
}

proof fn lemma_first_byte_ge(b: Seq<u8>, c: u8, from: int)
    requires
        0 <= from <= b.len(),
    ensures
        from <= first_byte(b, c, from) <= b.len(),
    decreases b.len() - from,
{
    if from < b.len() && b[from] != c {
        lemma_first_byte_ge(b, c, from + 1);
    }
}

/// The value of `key` in tag data `k1=v1,k2=v2,...`, if it has one.
pub fn lookup_tag(data: &str, key: &str) -> (r: Option<Vec<u8>>)
    ensures
        r matches Some(v) ==> data_value(data.spec_bytes(), key.spec_bytes()) == Some(v@),
        r is None ==> data_value(data.spec_bytes(), key.spec_bytes()) is None,
{
    let entries = split_bytes(data.as_bytes(), ENTRY_SEP);
    let k = key.as_bytes();
    let ghost es = views(entries@);
    let mut i = entries.len();
    assert(es.subrange(0, es.len() as int) =~= es);
    while i > 0
        invariant
            i <= entries@.len(),
            es == views(entries@),
            es == pieces(data.spec_bytes(), ENTRY_SEP),
            k@ == key.spec_bytes(),
            es.len() == entries@.len(),
            tag_value(es.subrange(0, i as int), k@) == tag_value(es, k@),
        decreases i,
    {
        let e = entries[i - 1].as_slice();
        let j = find_byte(e, KEY_SEP, 0);
        proof {
            lemma_first_byte_ge(e@, KEY_SEP, 0);
            assert(es.subrange(0, i as int).last() == e@);
            assert(es.subrange(0, i as int).drop_last() =~= es.subrange(0, i - 1));
        }
        let name = vstd::slice::slice_subrange(e, 0, j);
        if same_bytes(name, k) {
            assert(entry_key(e@) == k@);
            if j < e.len() {
                let v = vstd::slice::slice_subrange(e, j + 1, e.len());
                assert(entry_value(e@) == v@);
                return Some(copy_of(v));
            } else {
                assert(entry_value(e@) =~= Seq::<u8>::empty());
                return Some(Vec::new());
            }
        }
        i = i - 1;
    }
    None
}

/// A cel of a layer's tags: the data of the layer's `frame`-th cel.
pub struct AsepriteLayerTagCel {
    pub frame: u8,
    pub data: String,
}

/// The tags of a layer: its own data, and data for some of its cels.
pub struct AsepriteLayerTag {
    pub name: String,
    pub cels: Vec<AsepriteLayerTagCel>,
    pub data: String,
}

/// The layer name of cel `c`.
pub open spec fn layer_of(c: AsepriteCel) -> Seq<u8> {
    cel_layer(bytes_of(c.name))
}

/// How many of the first `n` cels lie on layer `l`.
pub open spec fn count_in_layer(cels: Seq<AsepriteCel>, l: Seq<u8>, n: int) -> int
    decreases n,
{
    if n <= 0 {
        0
    } else {
        count_in_layer(cels, l, n - 1) + if layer_of(cels[n - 1]) == l {
            1int
        } else {
            0
        }
    }
}

/// The index of the first layer at or after `from` named `l`, or the number
/// of layers.
pub open spec fn layer_named_from(layers: Seq<AsepriteLayerTag>, l: Seq<u8>, from: int) -> int
    decreases layers.len() - from,
{
    if from < 0 || from >= layers.len() {
        layers.len() as int
    } else if bytes_of(layers[from].name) == l {
        from
    } else {
        layer_named_from(layers, l, from + 1)
    }
}

/// The data of the last of the first `n` tag cels that is for `frame`.
pub open spec fn last_cel_data(tcs: Seq<AsepriteLayerTagCel>, frame: int, n: int) -> Option<Seq<u8>>
    decreases n,
{
    if n <= 0 {
        None
    } else if tcs[n - 1].frame == frame {
        Some(bytes_of(tcs[n - 1].data))
    } else {
        last_cel_data(tcs, frame, n - 1)
    }
}

/// The tag words for cel `k`: those of its layer's tag data for it, where the
/// cel counts as the layer's cel numbered by how many cels of that layer come
/// before it; `None` when its layer has no tags or no data for it.
pub open spec fn attached_words(cels: Seq<AsepriteCel>, layers: Seq<AsepriteLayerTag>, k: int) -> Option<
    Seq<Seq<u8>>,
> {
    let l = layer_of(cels[k]);
    let t = layer_named_from(layers, l, 0);
    if t < layers.len() {
        match last_cel_data(layers[t].cels@, count_in_layer(cels, l, k), layers[t].cels@.len() as int) {
            Some(d) => Some(pieces(d, WORD_SEP)),
            None => None,
        }
    } else {
        None
    }
}

/// The layer name of a cel.
fn layer_bytes(c: &AsepriteCel) -> (r: &[u8])
    requires
        cel_name_ok(bytes_of(c.name)),
    ensures
        r@ == layer_of(*c),
{
    let (_, _, layer) = split_cel_name(c.name.as_str().as_bytes());
    layer
}

/// The index of the first layer named `l`, or the number of layers.
fn find_layer(layers: &Vec<AsepriteLayerTag>, l: &[u8]) -> (r: usize)
    ensures
        r == layer_named_from(layers@, l@, 0),
{
    let mut t: usize = 0;
    while t < layers.len()
        invariant
            t <= layers@.len(),
            layer_named_from(layers@, l@, t as int) == layer_named_from(layers@, l@, 0),
        decreases layers@.len() - t,
    {
        if same_bytes(layers[t].name.as_str().as_bytes(), l) {
            return t;
        }
        t = t + 1;
    }
    t
}

/// Gives every cel the words of the tag data that its layer holds for it.
pub fn attach_cel_tags(cels: &mut Vec<AsepriteCel>, layers: &Vec<AsepriteLayerTag>)
    requires
        forall|k: int| 0 <= k < old(cels)@.len() ==> cel_name_ok(bytes_of(#[trigger] old(cels)@[k].name)),
        forall|k: int| 0 <= k < old(cels)@.len() ==> count_in_layer(old(cels)@, layer_of(#[trigger] old(cels)@[k]), k) <= 255,
    ensures
        final(cels)@.len() == old(cels)@.len(),
        forall|k: int| 0 <= k < old(cels)@.len() ==> {
            &&& (#[trigger] final(cels)@[k]).name == old(cels)@[k].name
            &&& final(cels)@[k].duration == old(cels)@[k].duration
            &&& final(cels)@[k].sprite_tex_rect == old(cels)@[k].sprite_tex_rect
            &&& final(cels)@[k].source_rect == old(cels)@[k].source_rect
            &&& views(final(cels)@[k].tags@) == match attached_words(old(cels)@, layers@, k) {
                Some(w) => w,
                None => views(old(cels)@[k].tags@),
            }
        },
{
    let ghost orig = cels@;
    let n = cels.len();
    let mut k: usize = 0;
    while k < n
        invariant
            n == orig.len(),
            cels@.len() == n,
            k <= n,
            forall|j: int| 0 <= j < n ==> cel_name_ok(bytes_of(#[trigger] orig[j].name)),
            forall|j: int| 0 <= j < n ==> count_in_layer(orig, layer_of(#[trigger] orig[j]), j) <= 255,
            forall|j: int| 0 <= j < n ==> {
                &&& (#[trigger] cels@[j]).name == orig[j].name
                &&& cels@[j].duration == orig[j].duration
                &&& cels@[j].sprite_tex_rect == orig[j].sprite_tex_rect
                &&& cels@[j].source_rect == orig[j].source_rect
            },
            forall|j: int| 0 <= j < k ==> views((#[trigger] cels@[j]).tags@) == match attached_words(orig, layers@, j) {
                Some(w) => w,
                None => views(orig[j].tags@),
            },
            forall|j: int| k <= j < n ==> (#[trigger] cels@[j]).tags == orig[j].tags,
        decreases n - k,
    {
        assert(cels@[k as int].name == orig[k as int].name);
        let words: Option<Vec<Vec<u8>>> = {
            let layer = layer_bytes(&cels[k]);
            let mut idx: usize = 0;
            let mut j: usize = 0;
            while j < k
                invariant
                    j <= k < n,
                    cels@.len() == n,
                    n == orig.len(),
                    forall|i: int| 0 <= i < n ==> cel_name_ok(bytes_of(#[trigger] orig[i].name)),
                    forall|i: int| 0 <= i < n ==> (#[trigger] cels@[i]).name == orig[i].name,
                    layer@ == layer_of(orig[k as int]),
                    idx == count_in_layer(orig, layer@, j as int),
                    count_in_layer(orig, layer@, k as int) <= 255,
                    idx <= j,
                decreases k - j,
            {
                assert(cels@[j as int].name == orig[j as int].name);
                if same_bytes(layer_bytes(&cels[j]), layer) {
                    idx = idx + 1;
                }
                j = j + 1;
            }
            let t = find_layer(layers, layer);
            if t < layers.len() {
                let tcs = &layers[t].cels;
                let mut found: Option<&String> = None;
                let mut m: usize = 0;
                while m < tcs.len()
                    invariant
                        m <= tcs@.len(),
                        found matches Some(d) ==> last_cel_data(tcs@, idx as int, m as int) == Some(bytes_of(*d)),
                        found is None ==> last_cel_data(tcs@, idx as int, m as int) is None,
                    decreases tcs@.len() - m,
                {
                    if tcs[m].frame as usize == idx {
                        found = Some(&tcs[m].data);
                    }
                    m = m + 1;
                }
                match found {
                    Some(d) => Some(split_bytes(d.as_str().as_bytes(), WORD_SEP)),
                    None => None,
                }
            } else {
                None
            }
        };
        match words {
            Some(w) => {
                cels[k].tags = w;
            },
            None => {},
        }
        k = k + 1;
    }
}

/// Whether layer `l` is a tileset: its tag data has the key `tileset`.
pub open spec fn is_tileset_layer(l: AsepriteLayerTag) -> bool {
    data_value(bytes_of(l.data), TAG_TILESET.spec_bytes()) is Some
}

/// The indices of the tileset layers among the first `n`, in order.
pub open spec fn tileset_layers(layers: Seq<AsepriteLayerTag>, n: int) -> Seq<int>
    decreases n,
{
    if n <= 0 {
        Seq::empty()
    } else if is_tileset_layer(layers[n - 1]) {
        tileset_layers(layers, n - 1).push(n - 1)
    } else {
        tileset_layers(layers, n - 1)
    }
}

/// The `tile-size` value of layer `l`'s tag data.
pub open spec fn tile_size_of(l: AsepriteLayerTag) -> Option<Seq<u8>> {
    data_value(bytes_of(l.data), TAG_TILE_SIZE.spec_bytes())
}

/// Tileset layer `l` is usable: exactly one cel lies on it, its tile size
/// reads as a `u8`, and that cel is 12 x 4 tiles of that size.
pub open spec fn tileset_layer_ok(cels: Seq<AsepriteCel>, l: AsepriteLayerTag) -> bool {
    &&& count_in_layer(cels, bytes_of(l.name), cels.len() as int) == 1
    &&& tile_size_of(l) matches Some(v) && parses_u8(v)
    &&& forall|k: int| 0 <= k < cels.len() && layer_of(#[trigger] cels[k]) == bytes_of(l.name) ==> {
        let g = digits_value(unsigned_part(tile_size_of(l).unwrap()));
        cels[k].source_rect.w == 12 * g && cels[k].source_rect.h == 4 * g
    }
}

proof fn lemma_count_zero(cels: Seq<AsepriteCel>, l: Seq<u8>, n: int)
    requires
        0 <= n <= cels.len(),
        forall|k: int| 0 <= k < n ==> layer_of(#[trigger] cels[k]) != l,
    ensures
        count_in_layer(cels, l, n) == 0,
    decreases n,
{
    if n > 0 {
        lemma_count_zero(cels, l, n - 1);
    }
}

/// The tilesets of an export: for each layer whose tag data has the key
/// `tileset`, in order, its name and a tileset of its one cel with the grid
/// size of its `tile-size`.
pub fn find_tilesets(cels: &Vec<AsepriteCel>, layers: &Vec<AsepriteLayerTag>) -> (r: Vec<(String, Tileset)>)
    requires
        cels@.len() <= 0x10000,
        forall|k: int| 0 <= k < cels@.len() ==> cel_name_ok(bytes_of(#[trigger] cels@[k].name)),
        forall|i: int| 0 <= i < layers@.len() && is_tileset_layer(#[trigger] layers@[i]) ==> tileset_layer_ok(cels@, layers@[i]),
    ensures
        r@.len() == tileset_layers(layers@, layers@.len() as int).len(),
        forall|i: int| 0 <= i < r@.len() ==> {
            let l = layers@[tileset_layers(layers@, layers@.len() as int)[i]];
            &&& (#[trigger] r@[i]).0 == l.name
            &&& r@[i].1.grid_size == digits_value(unsigned_part(tile_size_of(l).unwrap()))
            &&& r@[i].1.cel < cels@.len()
            &&& layer_of(cels@[r@[i].1.cel as int]) == bytes_of(l.name)
        },
{
    let mut r: Vec<(String, Tileset)> = Vec::new();
    let mut i: usize = 0;
    while i < layers.len()
        invariant
            i <= layers@.len(),
            cels@.len() <= 0x10000,
            forall|k: int| 0 <= k < cels@.len() ==> cel_name_ok(bytes_of(#[trigger] cels@[k].name)),
            forall|x: int| 0 <= x < layers@.len() && is_tileset_layer(#[trigger] layers@[x]) ==> tileset_layer_ok(cels@, layers@[x]),
            r@.len() == tileset_layers(layers@, i as int).len(),
            forall|x: int| 0 <= x < r@.len() ==> {
                let l = layers@[tileset_layers(layers@, i as int)[x]];
                &&& (#[trigger] r@[x]).0 == l.name
                &&& r@[x].1.grid_size == digits_value(unsigned_part(tile_size_of(l).unwrap()))
                &&& r@[x].1.cel < cels@.len()
                &&& layer_of(cels@[r@[x].1.cel as int]) == bytes_of(l.name)
            },
        decreases layers@.len() - i,
    {
        let layer = &layers[i];
        if lookup_tag(layer.data.as_str(), TAG_TILESET).is_some() {
            assert(is_tileset_layer(layers@[i as int]));
            let name = layer.name.as_str().as_bytes();
            let mut k: usize = 0;
            while k < cels.len() && !same_bytes(layer_bytes(&cels[k]), name)
                invariant
                    k <= cels@.len(),
                    forall|k2: int| 0 <= k2 < cels@.len() ==> cel_name_ok(bytes_of(#[trigger] cels@[k2].name)),
                    forall|j: int| 0 <= j < k ==> layer_of(#[trigger] cels@[j]) != name@,
                decreases cels@.len() - k,
            {
                k = k + 1;
            }
            proof {
                if k == cels@.len() {
                    lemma_count_zero(cels@, name@, k as int);
                }
            }
            let size = lookup_tag(layer.data.as_str(), TAG_TILE_SIZE).unwrap();
            proof {
                assert(tileset_layer_ok(cels@, layers@[i as int]));
                assert(size@.subrange(0, size@.len() as int) =~= size@);
            }
            let grid = parse_frame(size.as_slice(), 0, size.len());
            let ghost before = r@;
            r.push((layer.name.clone(), Tileset { grid_size: grid, cel: k as u16 }));
            proof {
                assert forall|x: int| 0 <= x < r@.len() implies {
                    let l = layers@[tileset_layers(layers@, i + 1)[x]];
                    &&& (#[trigger] r@[x]).0 == l.name
                    &&& r@[x].1.grid_size == digits_value(unsigned_part(tile_size_of(l).unwrap()))
                    &&& r@[x].1.cel < cels@.len()
                    &&& layer_of(cels@[r@[x].1.cel as int]) == bytes_of(l.name)
                } by {
                    if x < before.len() {
                        assert(r@[x] == before[x]);
                    }
                }
            }
        }
        i = i + 1;
    }
    r
}

} // verus!
