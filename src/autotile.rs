use vstd::prelude::*;

use crate::tile_map::NeighborMask;

verus! {

/// The mask `m` with each diagonal direction dropped unless both of its
/// adjacent straight directions are in `m`.
pub open spec fn filter_mask(m: u8) -> u8 {
    let t = m & 2u8;
    let b = m & 64u8;
    let l = m & 8u8;
    let r = m & 16u8;
    let tr = if t != 0 && r != 0 { m & 4u8 } else { 0u8 };
    let tl = if t != 0 && l != 0 { m & 1u8 } else { 0u8 };
    let br = if b != 0 && r != 0 { m & 128u8 } else { 0u8 };
    let bl = if b != 0 && l != 0 { m & 32u8 } else { 0u8 };
    m & (t | b | l | r | tr | tl | br | bl)
}

/// The place (column, row) in a tileset's 12 x 4 cel of the sub-tile for
/// each of the 47 canonical masks; `None` for any other mask.
pub open spec fn canonical_offset(f: u8) -> Option<(u8, u8)> {
    if f == 64 {
        Some((0, 0))
    } else if f == 80 {
        Some((1, 0))
    } else if f == 88 {
        Some((2, 0))
    } else if f == 72 {
        Some((3, 0))
    } else if f == 66 {
        Some((0, 1))
    } else if f == 82 {
        Some((1, 1))
    } else if f == 90 {
        Some((2, 1))
    } else if f == 74 {
        Some((3, 1))
    } else if f == 2 {
        Some((0, 2))
    } else if f == 18 {
        Some((1, 2))
    } else if f == 26 {
        Some((2, 2))
    } else if f == 10 {
        Some((3, 2))
    } else if f == 0 {
        Some((0, 3))
    } else if f == 16 {
        Some((1, 3))
    } else if f == 24 {
        Some((2, 3))
    } else if f == 8 {
        Some((3, 3))
    } else if f == 91 {
        Some((4, 0))
    } else if f == 216 {
        Some((5, 0))
    } else if f == 120 {
        Some((6, 0))
    } else if f == 94 {
        Some((7, 0))
    } else if f == 210 {
        Some((4, 1))
    } else if f == 254 {
        Some((5, 1))
    } else if f == 251 {
        Some((6, 1))
    } else if f == 106 {
        Some((7, 1))
    } else if f == 86 {
        Some((4, 2))
    } else if f == 223 {
        Some((5, 2))
    } else if f == 127 {
        Some((6, 2))
    } else if f == 75 {
        Some((7, 2))
    } else if f == 122 {
        Some((4, 3))
    } else if f == 30 {
        Some((5, 3))
    } else if f == 27 {
        Some((6, 3))
    } else if f == 218 {
        Some((7, 3))
    } else if f == 208 {
        Some((8, 0))
    } else if f == 250 {
        Some((9, 0))
    } else if f == 248 {
        Some((10, 0))
    } else if f == 104 {
        Some((11, 0))
    } else if f == 214 {
        Some((8, 1))
    } else if f == 126 {
        Some((9, 1))
    } else if f == 107 {
        Some((11, 1))
    } else if f == 222 {
        Some((8, 2))
    } else if f == 255 {
        Some((9, 2))
    } else if f == 219 {
        Some((10, 2))
    } else if f == 123 {
        Some((11, 2))
    } else if f == 22 {
        Some((8, 3))
    } else if f == 31 {
        Some((9, 3))
    } else if f == 95 {
        Some((10, 3))
    } else if f == 11 {
        Some((11, 3))
    } else {
        None
    }
}

/// The mask `m` with each diagonal direction dropped unless both of its
/// adjacent straight directions are in `m`.
pub fn filter_neighbor_mask(m: u8) -> (r: u8)
    ensures
        r == filter_mask(m),
{
    let t = m & NeighborMask::TOP;
    let b = m & NeighborMask::BOT;
    let l = m & NeighborMask::LEFT;
    let r = m & NeighborMask::RIGHT;
    let tr_mask = if t != 0 && r != 0 { NeighborMask::TOP_RIGHT } else { NeighborMask::EMPTY };
    let tl_mask = if t != 0 && l != 0 { NeighborMask::TOP_LEFT } else { NeighborMask::EMPTY };
    let br_mask = if b != 0 && r != 0 { NeighborMask::BOT_RIGHT } else { NeighborMask::EMPTY };
    let bl_mask = if b != 0 && l != 0 { NeighborMask::BOT_LEFT } else { NeighborMask::EMPTY };
    let tr = m & tr_mask;
    let tl = m & tl_mask;
    let br = m & br_mask;
    let bl = m & bl_mask;
    let filter = t | b | l | r | tr | tl | br | bl;
    assert((m & 0u8) == 0u8) by (bit_vector);
    m & filter
}

/// The sub-tile place of canonical mask `f`, if it is one.
pub fn canonical_offset_of(f: u8) -> (r: Option<(u8, u8)>)
    ensures
        r == canonical_offset(f),
        r matches Some(p) ==> p.0 < 12 && p.1 < 4,
{
    match f {
        64 => Some((0, 0)),
        80 => Some((1, 0)),
        88 => Some((2, 0)),
        72 => Some((3, 0)),
        66 => Some((0, 1)),
        82 => Some((1, 1)),
        90 => Some((2, 1)),
        74 => Some((3, 1)),
        2 => Some((0, 2)),
        18 => Some((1, 2)),
        26 => Some((2, 2)),
        10 => Some((3, 2)),
        0 => Some((0, 3)),
        16 => Some((1, 3)),
        24 => Some((2, 3)),
        8 => Some((3, 3)),
        91 => Some((4, 0)),
        216 => Some((5, 0)),
        120 => Some((6, 0)),
        94 => Some((7, 0)),
        210 => Some((4, 1)),
        254 => Some((5, 1)),
        251 => Some((6, 1)),
        106 => Some((7, 1)),
        86 => Some((4, 2)),
        223 => Some((5, 2)),
        127 => Some((6, 2)),
        75 => Some((7, 2)),
        122 => Some((4, 3)),
        30 => Some((5, 3)),
        27 => Some((6, 3)),
        218 => Some((7, 3)),
        208 => Some((8, 0)),
        250 => Some((9, 0)),
        248 => Some((10, 0)),
        104 => Some((11, 0)),
        214 => Some((8, 1)),
        126 => Some((9, 1)),
        107 => Some((11, 1)),
        222 => Some((8, 2)),
        255 => Some((9, 2)),
        219 => Some((10, 2)),
        123 => Some((11, 2)),
        22 => Some((8, 3)),
        31 => Some((9, 3)),
        95 => Some((10, 3)),
        11 => Some((11, 3)),
        _ => None,
    }
}

/// Every mask, once filtered, is one of the canonical masks.
pub proof fn lemma_filtered_mask_is_canonical(m: u8)
    ensures
        canonical_offset(filter_mask(m)) is Some,
{
    let f = filter_mask(m);
    assert(f == 64 || f == 80 || f == 88 || f == 72 || f == 66 || f == 82 || f == 90 || f == 74 || f == 2 || f == 18 || f == 26 || f == 10 || f == 0 || f == 16 || f == 24 || f == 8 || f == 91 || f == 216 || f == 120 || f == 94 || f == 210 || f == 254 || f == 251 || f == 106 || f == 86 || f == 223 || f == 127 || f == 75 || f == 122 || f == 30 || f == 27 || f == 218 || f == 208 || f == 250 || f == 248 || f == 104 || f == 214 || f == 126 || f == 107 || f == 222 || f == 255 || f == 219 || f == 123 || f == 22 || f == 31 || f == 95 || f == 11) by (bit_vector)
        requires
            f == m & ((m & 2u8) | (m & 64u8) | (m & 8u8) | (m & 16u8) | (if (m & 2u8) != 0 && (m
                & 16u8) != 0 { m & 4u8 } else { 0u8 }) | (if (m & 2u8) != 0 && (m & 8u8) != 0 {
                m & 1u8
            } else { 0u8 }) | (if (m & 64u8) != 0 && (m & 16u8) != 0 { m & 128u8 } else { 0u8 })
                | (if (m & 64u8) != 0 && (m & 8u8) != 0 { m & 32u8 } else { 0u8 })),
    ;
}

/// The sub-tile place for any neighbour mask: that of its filtered mask.
pub fn offset_of(neighbor_mask: u8) -> (r: (u8, u8))
    ensures
        canonical_offset(filter_mask(neighbor_mask)) == Some(r),
        r.0 < 12 && r.1 < 4,
{
    let filtered = filter_neighbor_mask(neighbor_mask);
    proof {
        lemma_filtered_mask_is_canonical(neighbor_mask);
    }
    canonical_offset_of(filtered).unwrap()
}

/// The sub-tile place of every one of the 256 masks, indexed by mask.
pub fn gen_tile_offsets_array() -> (r: Vec<(u8, (u8, u8))>)
    ensures
        r@.len() == 256,
        forall|i: int|
            0 <= i < 256 ==> (#[trigger] r@[i]).0 == i && canonical_offset(filter_mask(i as u8))
                == Some(r@[i].1),
{
    let mut r: Vec<(u8, (u8, u8))> = Vec::with_capacity(256);
    let mut m: u16 = 0;
    while m < 256
        invariant
            m <= 256,
            r@.len() == m,
            forall|i: int|
                0 <= i < m ==> (#[trigger] r@[i]).0 == i && canonical_offset(filter_mask(i as u8))
                    == Some(r@[i].1),
        decreases 256 - m,
    {
        r.push((m as u8, offset_of(m as u8)));
        m = m + 1;
    }
    r
}

} // verus!
