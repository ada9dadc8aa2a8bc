use engine::autotile::{filter_neighbor_mask, gen_tile_offsets_array, offset_of};
use engine::components::Tile;
use engine::sprite_map::{Rect, ResolvedTileset};
use engine::tile_map::{NeighborMask, TileMap};

#[test]
fn get_and_set_by_position() {
    let mut m = TileMap::new(Tile(false));
    assert_eq!(m.size(), 256);
    m.set(3, 4, Tile(true));
    assert_eq!(*m.get(3, 4), Tile(true));
    assert_eq!(*m.get(4, 3), Tile(false));
    *m.get_mut(255, 255) = Tile(true);
    assert_eq!(*m.get(255, 255), Tile(true));
    assert_eq!(*m.get(0, 0), Tile(false));
}

#[test]
fn isolated_tile_gives_one_bit_from_each_neighbour() {
    let mut m = TileMap::new(Tile(false));
    m.set(10, 20, Tile(true));
    // (dx, dy) from the queried tile to the solid one, and the bit expected
    let cases = [
        (-1i32, -1i32, NeighborMask::TOP_LEFT),
        (0, -1, NeighborMask::TOP),
        (1, -1, NeighborMask::TOP_RIGHT),
        (-1, 0, NeighborMask::LEFT),
        (1, 0, NeighborMask::RIGHT),
        (-1, 1, NeighborMask::BOT_LEFT),
        (0, 1, NeighborMask::BOT),
        (1, 1, NeighborMask::BOT_RIGHT),
    ];
    for (dx, dy, bit) in cases {
        let qx = (10 - dx) as usize;
        let qy = (20 - dy) as usize;
        let mask = m.filter_neighbors(qx, qy, |t: &Tile| t.0);
        assert_eq!(mask, NeighborMask(bit));
        assert_eq!(mask.0.count_ones(), 1);
    }
    assert_eq!(m.filter_neighbors(10, 20, |t: &Tile| t.0), NeighborMask(0));
}

#[test]
fn neighbours_at_the_edge_read_padding() {
    let mut m = TileMap::new(Tile(false));
    m.set(0, 0, Tile(true));
    m.set(1, 1, Tile(true));
    assert_eq!(m.filter_neighbors(0, 0, |t: &Tile| t.0).0, NeighborMask::BOT_RIGHT);
    let n = m.iter_neighbors(0, 0);
    assert_eq!(n.len(), 8);
    assert_eq!(n[7].0, NeighborMask(NeighborMask::BOT_RIGHT));
    assert_eq!(*n[7].1, Tile(true));
    assert_eq!(*n[0].1, Tile(false));
}

#[test]
fn mask_ops() {
    let a = NeighborMask(NeighborMask::TOP | NeighborMask::LEFT);
    let b = NeighborMask(NeighborMask::LEFT);
    assert!(a.is(&b));
    assert!(!b.is(&NeighborMask(NeighborMask::TOP)));
    assert_eq!(a.intersection(b), b);
    assert_eq!(b.union(NeighborMask(NeighborMask::TOP)), a);
}

#[test]
fn offsets_of_masks() {
    assert_eq!(offset_of(NeighborMask::EMPTY), (0, 3));
    assert_eq!(offset_of(NeighborMask::BOT), (0, 0));
    assert_eq!(offset_of(NeighborMask::BOT | NeighborMask::RIGHT), (1, 0));
    assert_eq!(offset_of(255), (9, 2));
    // diagonals without both adjacent sides are dropped
    assert_eq!(filter_neighbor_mask(NeighborMask::TOP_LEFT | NeighborMask::TOP), NeighborMask::TOP);
    assert_eq!(offset_of(NeighborMask::TOP_LEFT | NeighborMask::TOP), (0, 2));
    assert_eq!(offset_of(0b1010_0101), (0, 3));
    let all = gen_tile_offsets_array();
    assert_eq!(all.len(), 256);
    for (i, (m, off)) in all.iter().enumerate() {
        assert_eq!(*m as usize, i);
        assert!(off.0 < 12 && off.1 < 4);
    }
    assert_eq!(all[2], (2, (0, 2)));
}

#[test]
fn tileset_picks_sub_tile_rect() {
    let t = ResolvedTileset { rect: Rect { x: 100, y: 200, w: 96, h: 32 }, grid_size: 8 };
    let r = t.tex_rect_for(NeighborMask(NeighborMask::TOP | NeighborMask::RIGHT));
    assert_eq!(r, Rect { x: 108, y: 216, w: 8, h: 8 });
    let full = t.tex_rect_for(NeighborMask(255));
    assert_eq!(full, Rect { x: 172, y: 216, w: 8, h: 8 });
}
