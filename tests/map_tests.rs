use tailarc::map::{GameMap, Tile, CARDINAL_COST, DIAGONAL_COST};
use tailarc::map_builders::Rect;
use tailarc::render::wall_glyph;
use tailarc::tilemap::{TileMap, TileType};

fn open_room(width: u32, height: u32) -> GameMap {
    let mut map = GameMap::new(width, height, 1);
    for y in 1..height - 1 {
        for x in 1..width - 1 {
            let idx = map.xy_idx(x, y);
            map.tiles[idx] = Tile::Floor;
        }
    }
    map.populate_blocked();
    map
}

#[test]
fn new_map_is_all_wall() {
    let map = GameMap::new(4, 3, 2);
    assert_eq!(map.tiles.len(), 12);
    assert!(map.tiles.iter().all(|t| *t == Tile::Wall));
    assert!(map.revealed_tiles.iter().all(|b| !*b));
    assert!(map.visible_tiles.iter().all(|b| !*b));
    assert!(map.blocked.iter().all(|b| !*b));
    assert!(map.tile_content.iter().all(|c| c.is_empty()));
    assert_eq!(map.depth, 2);
}

#[test]
fn xy_idx_round_trips_every_cell() {
    let map = GameMap::new(7, 5, 1);
    let mut seen = vec![false; 35];
    for y in 0..5 {
        for x in 0..7 {
            let idx = map.xy_idx(x, y);
            assert_eq!(idx, (y * 7 + x) as usize);
            assert!(!seen[idx]);
            seen[idx] = true;
            assert_eq!(map.idx_xy(idx), (x, y));
        }
    }
    assert!(seen.iter().all(|b| *b));
    assert_eq!(GameMap::xy_idx_with_width(3, 2, 10, 4), 23);
}

#[test]
fn populate_blocked_follows_walls() {
    let map = open_room(5, 5);
    for i in 0..25 {
        assert_eq!(map.blocked[i], map.tiles[i] == Tile::Wall);
    }
}

#[test]
fn exits_of_interior_and_corner_cells() {
    let map = open_room(5, 5);
    let centre = map.xy_idx(2, 2);
    let exits = map.get_available_exits(centre);
    assert_eq!(exits.len(), 8);
    assert_eq!(exits[0], (centre - 1, CARDINAL_COST));
    assert_eq!(exits[7], (centre + 6, DIAGONAL_COST));
    let corner = map.xy_idx(1, 1);
    let exits = map.get_available_exits(corner);
    let targets: Vec<usize> = exits.iter().map(|e| e.0).collect();
    assert_eq!(targets, vec![map.xy_idx(2, 1), map.xy_idx(1, 2), map.xy_idx(2, 2)]);
    assert!(map.is_opaque(0));
    assert!(!map.is_opaque(corner));
    assert!(!map.is_exit_valid(0, 2));
    assert!(map.is_exit_valid(3, 3));
}

#[test]
fn clear_content_index_empties_cells() {
    let mut map = open_room(3, 3);
    map.tile_content[4].push(7);
    map.clear_content_index();
    assert!(map.tile_content.iter().all(|c| c.is_empty()));
}

#[test]
fn rect_queries() {
    let r = Rect::new(2, 3, 4, 6);
    assert_eq!((r.x1, r.y1, r.x2, r.y2), (2, 3, 6, 9));
    assert_eq!(r.center(), (4, 6));
    assert_eq!(r.width(), 4);
    assert_eq!(r.height(), 6);
    let touching = Rect::new(6, 9, 2, 2);
    assert!(r.intersect(&touching));
    let apart = Rect::new(7, 0, 2, 2);
    assert!(!r.intersect(&apart));
    let negative = Rect { x1: -3, y1: -4, x2: 0, y2: 1 };
    assert_eq!(negative.center(), (-1, -1));
    assert_eq!(negative.width(), 3);
}

#[test]
fn ascii_bytes_map_to_terrain() {
    assert_eq!(TileType::from_ascii_byte(b'#'), TileType::Wall);
    assert_eq!(TileType::from_ascii_byte(b'.'), TileType::Floor);
    assert_eq!(TileType::from_ascii_byte(b'p'), TileType::BrickPath);
    assert_eq!(TileType::from_ascii_byte(b' '), TileType::Grass);
    let tm = TileMap {
        tiles: vec![TileType::Floor; 12],
        revealed_tiles: vec![false; 12],
        visible_tiles: vec![false; 12],
        show_non_visible: false,
        width: 4,
        height: 3,
    };
    assert_eq!(tm.xy_idx(3, 2), 11);
    assert_eq!(TileMap::xy_idx_with_width(1, 1, 4, 3), 5);
}

#[test]
fn ascii_rows_become_a_tile_map() {
    let rows = vec![b"#.#".to_vec(), b"p".to_vec(), b"# ".to_vec()];
    let tm = TileMap::from_ascii_rows(&rows, true);
    assert_eq!((tm.width, tm.height), (3, 3));
    assert_eq!(tm.tiles[0], TileType::Wall);
    assert_eq!(tm.tiles[1], TileType::Floor);
    assert_eq!(tm.tiles[3], TileType::BrickPath);
    assert_eq!(tm.tiles[4], TileType::Floor);
    assert_eq!(tm.tiles[7], TileType::Grass);
    assert!(tm.show_non_visible);
    assert!(tm.revealed_tiles.iter().all(|b| !*b));
}

#[test]
fn walls_join_their_revealed_neighbours() {
    let mut map = GameMap::new(3, 3, 1);
    for i in 0..9 {
        map.revealed_tiles[i] = true;
    }
    assert_eq!(wall_glyph(&map, 1, 1), 206);
    assert_eq!(wall_glyph(&map, 0, 0), 201);
    let idx = map.xy_idx(1, 0);
    map.tiles[idx] = Tile::Floor;
    assert_eq!(wall_glyph(&map, 1, 1), 203);
    let mut lone = GameMap::new(1, 1, 1);
    lone.revealed_tiles[0] = true;
    assert_eq!(wall_glyph(&lone, 0, 0), 9);
}
