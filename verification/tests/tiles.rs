use onyx::autotile::{autotile_a, autotile_b, autotile_c, autotile_d, offset, AutoTile};
use onyx::common::{point2, MapLayer, Tile, TileAnimation};
use onyx::grid::TileGrid;
use onyx::tilemap::{MapError, TileMap};

fn plain(x: i32, y: i32) -> Tile {
    Tile { texture: point2(x, y), autotile: false, animation: None }
}

fn auto(x: i32, y: i32) -> Tile {
    Tile { texture: point2(x, y), autotile: true, animation: None }
}

#[test]
fn neighbour_offsets() {
    let all: Vec<(i32, i32)> = (0..8).map(offset).collect();
    assert_eq!(all, vec![(0, -1), (1, 0), (0, 1), (-1, 0), (1, -1), (1, 1), (-1, 1), (-1, -1)]);
}

#[test]
fn autotile_quarters_match_the_sheet_layout() {
    // No matching neighbour: the single-tile preview.
    assert_eq!(autotile_a(0), point2(0, 0));
    assert_eq!(autotile_b(0), point2(1, 0));
    assert_eq!(autotile_c(0), point2(0, 1));
    assert_eq!(autotile_d(0), point2(1, 1));
    // Top-left corner.
    assert_eq!(autotile_a(128), point2(0, 2));
    assert_eq!(autotile_a(1), point2(0, 4));
    assert_eq!(autotile_a(129), point2(0, 4));
    assert_eq!(autotile_a(8), point2(2, 2));
    assert_eq!(autotile_a(136), point2(2, 2));
    assert_eq!(autotile_a(9), point2(2, 0));
    assert_eq!(autotile_a(137), point2(2, 4));
    // Top-right corner.
    assert_eq!(autotile_b(16), point2(3, 2));
    assert_eq!(autotile_b(17), point2(3, 4));
    assert_eq!(autotile_b(18), point2(1, 2));
    assert_eq!(autotile_b(3), point2(3, 0));
    assert_eq!(autotile_b(19), point2(1, 4));
    // Bottom-left corner.
    assert_eq!(autotile_c(64), point2(0, 5));
    assert_eq!(autotile_c(68), point2(0, 3));
    assert_eq!(autotile_c(72), point2(2, 5));
    assert_eq!(autotile_c(12), point2(2, 1));
    assert_eq!(autotile_c(76), point2(2, 3));
    // Bottom-right corner.
    assert_eq!(autotile_d(32), point2(3, 5));
    assert_eq!(autotile_d(36), point2(3, 3));
    assert_eq!(autotile_d(34), point2(1, 5));
    assert_eq!(autotile_d(6), point2(3, 1));
    assert_eq!(autotile_d(38), point2(1, 3));
    // Bits of other corners are ignored.
    assert_eq!(autotile_a(255), point2(2, 4));
    assert_eq!(autotile_d(255), point2(1, 3));
}

#[test]
fn autotile_new_shifts_by_base() {
    let t = AutoTile::new(point2(2, 4), 255);
    assert_eq!(t.top_left, point2(4, 8));
    assert_eq!(t.top_right, point2(3, 8));
    assert_eq!(t.bottom_left, point2(4, 7));
    assert_eq!(t.bottom_right, point2(3, 7));
}

#[test]
fn grid_put_and_get() {
    let mut g = TileGrid::new(3, 2);
    assert_eq!(g.shape(), (3, 2));
    assert_eq!(g.get(2, 1), Some(None));
    assert_eq!(g.get(3, 0), None);
    assert!(g.put(2, 1, Some(plain(5, 6))));
    assert_eq!(g.get(2, 1), Some(Some(plain(5, 6))));
    assert!(!g.put(0, 2, Some(plain(1, 1))));
    assert_eq!(g.get(0, 1), Some(None));
}

#[test]
fn new_map_is_empty() {
    let map = TileMap::new(4, 3);
    assert_eq!((map.width(), map.height()), (4, 3));
    for layer in MapLayer::all() {
        for x in 0..4 {
            for y in 0..3 {
                assert_eq!(map.tile(layer, point2(x, y)), None);
            }
        }
    }
}

#[test]
fn set_tile_then_read_back() {
    let mut map = TileMap::new(4, 3);
    let t = plain(1, 2);
    assert_eq!(map.set_tile(MapLayer::Mask, point2(3, 2), t), None);
    assert_eq!(map.tile(MapLayer::Mask, point2(3, 2)), Some(t));
    assert_eq!(map.tile(MapLayer::Ground, point2(3, 2)), None);
    let u = plain(7, 7);
    assert_eq!(map.set_tile(MapLayer::Mask, point2(3, 2), u), Some(t));
    assert_eq!(map.tile(MapLayer::Mask, point2(3, 2)), Some(u));
    assert_eq!(map.clear_tile(MapLayer::Mask, point2(3, 2)), Some(u));
    assert_eq!(map.tile(MapLayer::Mask, point2(3, 2)), None);
}

#[test]
fn set_tile_outside_the_map_is_ignored() {
    let mut map = TileMap::new(2, 2);
    assert!(!map.valid(point2(2, 0)));
    assert!(!map.valid(point2(-1, 0)));
    assert!(map.valid(point2(1, 1)));
    assert_eq!(map.set_tile(MapLayer::Ground, point2(2, 0), plain(1, 1)), None);
    assert_eq!(map.set_tile(MapLayer::Ground, point2(-1, 0), plain(1, 1)), None);
    assert_eq!(map.tile(MapLayer::Ground, point2(2, 0)), None);
    for x in 0..2 {
        for y in 0..2 {
            assert_eq!(map.tile(MapLayer::Ground, point2(x, y)), None);
        }
    }
}

#[test]
fn fill_covers_one_layer() {
    let mut map = TileMap::new(3, 2);
    map.set_tile(MapLayer::Fringe, point2(0, 0), plain(9, 9));
    map.fill(MapLayer::Ground, Some(plain(1, 0)));
    for x in 0..3 {
        for y in 0..2 {
            assert_eq!(map.tile(MapLayer::Ground, point2(x, y)), Some(plain(1, 0)));
        }
    }
    assert_eq!(map.tile(MapLayer::Fringe, point2(0, 0)), Some(plain(9, 9)));
    map.fill(MapLayer::Ground, None);
    assert_eq!(map.tile(MapLayer::Ground, point2(1, 1)), None);
}

#[test]
fn lone_autotile_uses_the_preview() {
    let mut map = TileMap::new(3, 3);
    map.set_tile(MapLayer::Ground, point2(1, 1), auto(0, 0));
    map.update_autotile_cache();
    let t = map.autotile(MapLayer::Ground, 1, 1).unwrap();
    assert_eq!(t.top_left, point2(0, 0));
    assert_eq!(t.top_right, point2(1, 0));
    assert_eq!(t.bottom_left, point2(0, 1));
    assert_eq!(t.bottom_right, point2(1, 1));
    assert_eq!(map.autotile(MapLayer::Ground, 0, 0), None);
    assert_eq!(map.autotile(MapLayer::Mask, 1, 1), None);
    assert_eq!(map.autotile(MapLayer::Ground, 5, 5), None);
}

#[test]
fn autotile_continues_past_the_edge() {
    let mut map = TileMap::new(1, 1);
    map.set_tile(MapLayer::Ground, point2(0, 0), auto(1, 2));
    map.update_autotile_cache();
    let t = map.autotile(MapLayer::Ground, 0, 0).unwrap();
    assert_eq!(t, AutoTile::new(point2(2, 4), 255));
}

#[test]
fn autotile_row_of_three() {
    let mut map = TileMap::new(3, 3);
    for x in 0..3 {
        map.set_tile(MapLayer::Mask, point2(x, 1), auto(0, 1));
    }
    map.update_autotile_cache();
    // The middle cell matches east (2) and west (8) only.
    let mid = map.autotile(MapLayer::Mask, 1, 1).unwrap();
    assert_eq!(mid, AutoTile::new(point2(0, 2), 2 | 8));
    // The left cell also matches everything past the west edge.
    let left = map.autotile(MapLayer::Mask, 0, 1).unwrap();
    assert_eq!(left, AutoTile::new(point2(0, 2), 2 | 8 | 64 | 128));
}

#[test]
fn uniform_layer_fills_every_quarter() {
    let mut map = TileMap::new(3, 3);
    map.fill(MapLayer::Ground, Some(auto(1, 1)));
    map.update_autotile_cache();
    for x in 0..3 {
        for y in 0..3 {
            let t = map.autotile(MapLayer::Ground, x, y).unwrap();
            assert_eq!(t.top_left, point2(4, 6));
            assert_eq!(t.top_right, point2(3, 6));
            assert_eq!(t.bottom_left, point2(4, 5));
            assert_eq!(t.bottom_right, point2(3, 5));
        }
    }
}

#[test]
fn animated_tiles_are_kept() {
    let anim = TileAnimation { frames: 4, duration_bits: 0.5f64.to_bits(), bouncy: true };
    let t = Tile { texture: point2(2, 3), autotile: false, animation: Some(anim) };
    let mut map = TileMap::new(2, 2);
    map.set_tile(MapLayer::Fringe2, point2(1, 0), t);
    assert_eq!(map.tile(MapLayer::Fringe2, point2(1, 0)), Some(t));
}

#[test]
fn resize_keeps_the_overlap() {
    let mut map = TileMap::new(4, 4);
    map.set_tile(MapLayer::Ground, point2(1, 1), plain(3, 3));
    map.set_tile(MapLayer::Ground, point2(3, 3), plain(4, 4));
    map.resize(2, 3);
    assert_eq!((map.width(), map.height()), (2, 3));
    assert_eq!(map.tile(MapLayer::Ground, point2(1, 1)), Some(plain(3, 3)));
    assert_eq!(map.tile(MapLayer::Ground, point2(3, 3)), None);
    map.resize(0, 0);
    assert_eq!((map.width(), map.height()), (0, 0));
}

#[test]
fn from_layers_checks_layers_and_sizes() {
    let mut layers: Vec<Option<TileGrid>> = (0..5).map(|_| Some(TileGrid::new(2, 2))).collect();
    layers[4] = None;
    assert_eq!(TileMap::from_layers(2, 2, layers).err(), Some(MapError::IncorrectLayers));

    let mut layers: Vec<Option<TileGrid>> = (0..5).map(|_| Some(TileGrid::new(2, 2))).collect();
    layers[1] = Some(TileGrid::new(3, 2));
    assert_eq!(TileMap::from_layers(2, 2, layers).err(), Some(MapError::IncorrectSize));

    let mut ground = TileGrid::new(2, 2);
    ground.put(0, 1, Some(auto(0, 0)));
    let mut layers: Vec<Option<TileGrid>> = vec![Some(ground)];
    layers.extend((0..4).map(|_| Some(TileGrid::new(2, 2))));
    let map = TileMap::from_layers(2, 2, layers).ok().unwrap();
    assert_eq!(map.tile(MapLayer::Ground, point2(0, 1)), Some(auto(0, 0)));
    assert!(map.autotile(MapLayer::Ground, 0, 1).is_some());
    assert!(map.autotile(MapLayer::Ground, 1, 1).is_none());
}

#[test]
fn resize_can_grow_with_empty_new_cells() {
    let mut map = TileMap::new(2, 2);
    map.set_tile(MapLayer::Ground, point2(1, 1), plain(3, 3));
    map.set_tile(MapLayer::Mask, point2(0, 0), auto(0, 0));
    map.resize(4, 3);
    assert_eq!((map.width(), map.height()), (4, 3));
    assert_eq!(map.tile(MapLayer::Ground, point2(1, 1)), Some(plain(3, 3)));
    assert_eq!(map.tile(MapLayer::Mask, point2(0, 0)), Some(auto(0, 0)));
    for x in 0..4 {
        for y in 0..3 {
            if (x, y) != (1, 1) {
                assert_eq!(map.tile(MapLayer::Ground, point2(x, y)), None);
            }
        }
    }
    assert!(map.autotile(MapLayer::Mask, 0, 0).is_some());
    assert_eq!(map.autotile(MapLayer::Mask, 3, 2), None);
}

#[test]
fn sizes_are_checked_before_building() {
    assert!(onyx::tilemap::fits_in_memory(20, 15));
    assert!(!onyx::tilemap::fits_in_memory(u32::MAX, u32::MAX));
    let map = TileMap::try_new(20, 15).unwrap();
    assert_eq!((map.width(), map.height()), (20, 15));
    assert_eq!(map.tile(MapLayer::Ground, point2(19, 14)), None);
    assert!(TileMap::try_new(u32::MAX, u32::MAX).is_none());
    assert_eq!(TileGrid::try_new(3, 2).unwrap().shape(), (3, 2));
    assert!(TileGrid::try_new(usize::MAX, 2).is_none());
    assert!(TileGrid::try_new(usize::MAX / 8, 1).is_none());
}

#[test]
fn autotile_near_the_coordinate_limit_renders() {
    let mut map = TileMap::new(3, 3);
    map.set_tile(MapLayer::Ground, point2(1, 1), auto(1073741823, 0));
    map.update_autotile_cache();
    let t = map.autotile(MapLayer::Ground, 1, 1).unwrap();
    assert_eq!(t.top_left, point2(2147483646, 0));
    assert_eq!(t.top_right, point2(2147483647, 0));
    assert_eq!(t.bottom_left, point2(2147483646, 1));
    assert_eq!(t.bottom_right, point2(2147483647, 1));
}
