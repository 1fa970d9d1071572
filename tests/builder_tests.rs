use tailarc::components::{CombatStats, ConsumableEffects, Position, Renderable, Rgb8};
use tailarc::map::{GameMap, Tile};
use tailarc::map_builders::area_starting_position::{AreaStartingPosition, XStart, YStart};
use tailarc::map_builders::bsp_dungeon::{draw_corridor, BspDungeon};
use tailarc::map_builders::cellular_automata::{cellular_step, CellularAutomata};
use tailarc::map_builders::common::{apply_horizontal_tunnel, apply_room_to_map, apply_vertical_tunnel};
use tailarc::map_builders::cull_unreachable::CullUnreachable;
use tailarc::map_builders::drunkard::{count_floor, walk, DrunkardsWalk};
use tailarc::map_builders::room_based_starting_position::RoomBasedStartingPosition;
use tailarc::map_builders::spawner::spawn_room;
use tailarc::map_builders::{
    BuildError, InitialBuilder, MapBuilder, MapBuilderChain, MetaBuilder, Rect, RoomBasedSpawner,
    SimpleMap,
};
use tailarc::raws::{
    get_item, get_mob, spawn_named_entity, Consumable, ItemRaw, MobRaw, RawManager, Raws, SpawnType,
};
use tailarc::world::World;

fn glyph() -> Renderable {
    let black = Rgb8 { r: 0, g: 0, b: 0 };
    Renderable { glyph: 111, fg: black, bg: black, z_index: 2 }
}

fn registry() -> RawManager {
    let mut raws = RawManager::new();
    raws.load(Raws {
        items: vec![
            ItemRaw {
                name: "Health Potion".to_string(),
                renderable: Some(glyph()),
                consumable: Some(Consumable { effects: ConsumableEffects { heal: Some(8) } }),
                equippable: None,
                stats: None,
            },
            ItemRaw {
                name: "Health Potion".to_string(),
                renderable: None,
                consumable: Some(Consumable { effects: ConsumableEffects { heal: Some(20) } }),
                equippable: None,
                stats: None,
            },
        ],
        mobs: vec![MobRaw {
            name: "Orc".to_string(),
            renderable: glyph(),
            blocks_tile: true,
            vision_range: 6,
            stats: CombatStats { hp: 16, max_hp: 16, defense: 1, power: 4 },
        }],
    });
    raws
}

#[test]
fn lookups_take_the_last_definition_of_a_name() {
    let raws = registry();
    let potion = get_item(&raws, &"Health Potion".to_string()).unwrap();
    assert_eq!(potion.consumable.unwrap().effects.heal, Some(20));
    assert!(get_item(&raws, &"Orc".to_string()).is_none());
    assert_eq!(get_mob(&raws, &"Orc".to_string()).unwrap().vision_range, 6);
    assert!(get_mob(&raws, &"Dragon".to_string()).is_none());
}

#[test]
fn named_entities_are_spawned_from_definitions() {
    let raws = registry();
    let mut world = World::new();
    spawn_named_entity(&mut world, &raws, &"Orc".to_string(), SpawnType::AtPosition(Position { x: 3, y: 4 }));
    spawn_named_entity(&mut world, &raws, &"Health Potion".to_string(), SpawnType::AtPosition(Position { x: 1, y: 1 }));
    assert_eq!(world.entities.len(), 2);
    let orc = &world.entities[0];
    assert!(orc.mob && orc.blocks_tile);
    assert_eq!(orc.position, Some(Position { x: 3, y: 4 }));
    assert_eq!(orc.viewshed.as_ref().unwrap().range, 6);
    assert!(orc.viewshed.as_ref().unwrap().dirty);
    let potion = &world.entities[1];
    assert!(potion.item);
    assert_eq!(potion.consumable, Some(ConsumableEffects { heal: Some(20) }));
}

#[test]
fn carving_rooms_and_tunnels() {
    let mut map = GameMap::new(10, 10, 1);
    apply_room_to_map(&mut map, &Rect::new(1, 1, 3, 3));
    let floors: Vec<usize> = (0..100).filter(|&i| map.tiles[i] == Tile::Floor).collect();
    assert_eq!(floors, vec![22, 23, 32, 33]);
    apply_horizontal_tunnel(&mut map, 7, 5, 8);
    for x in 5..=7 {
        assert_eq!(map.tiles[map.xy_idx(x, 8)], Tile::Floor);
    }
    apply_vertical_tunnel(&mut map, 3, 0, 0);
    assert_eq!(map.tiles[0], Tile::Wall);
    assert_eq!(map.tiles[map.xy_idx(0, 3)], Tile::Floor);
}

#[test]
fn cellular_step_applies_the_rule() {
    let mut map = GameMap::new(5, 5, 1);
    for i in 0..25 {
        map.tiles[i] = Tile::Floor;
    }
    let next = cellular_step(&map);
    assert_eq!(next[map.xy_idx(2, 2)], Tile::Wall);
    assert_eq!(next[0], Tile::Floor);
    map.tiles = vec![Tile::Wall; 25];
    let next = cellular_step(&map);
    assert_eq!(next[map.xy_idx(2, 2)], Tile::Wall);
    let mut mixed = GameMap::new(5, 5, 1);
    for i in 0..25 {
        mixed.tiles[i] = if i % 2 == 0 { Tile::Floor } else { Tile::Wall };
    }
    let next = cellular_step(&mixed);
    assert_eq!(next[mixed.xy_idx(2, 2)], Tile::Floor);
}

#[test]
fn cellular_builder_starts_on_floor() {
    let mut data = MapBuilder::new(40, 30, 1);
    CellularAutomata.build_map(&mut data);
    if let Some(p) = data.starting_position {
        assert_eq!(p.y, 15);
        assert_eq!(data.map.tiles[data.map.xy_idx(p.x, p.y)], Tile::Floor);
    }
}

#[test]
fn drunkards_carve_towards_the_target() {
    let mut data = MapBuilder::new(40, 30, 1);
    DrunkardsWalk::open_area().build_map(&mut data);
    assert!(count_floor(&data.map) >= 600);
    for x in 0..40 {
        assert_eq!(data.map.tiles[data.map.xy_idx(x, 0)], Tile::Wall);
    }
}

#[test]
fn simple_map_rooms_do_not_overlap() {
    let mut data = MapBuilder::new(80, 50, 1);
    SimpleMap.new_map_rooms_and_corridors(&mut data);
    let rooms = data.rooms.as_ref().unwrap();
    assert!(!rooms.is_empty());
    for a in 0..rooms.len() {
        for b in a + 1..rooms.len() {
            assert!(!rooms[a].intersect(&rooms[b]));
        }
        let (cx, cy) = rooms[a].center();
        assert_eq!(data.map.tiles[data.map.xy_idx(cx as u32, cy as u32)], Tile::Floor);
    }
}

#[test]
fn bsp_rooms_come_sorted_by_left_edge() {
    let mut data = MapBuilder::new(80, 50, 1);
    BspDungeon.build_map(&mut data);
    let rooms = data.rooms.as_ref().unwrap();
    assert!(!rooms.is_empty());
    for k in 1..rooms.len() {
        assert!(rooms[k - 1].x1 <= rooms[k].x1);
    }
}

#[test]
fn area_start_picks_the_nearest_floor() {
    let mut data = MapBuilder::new(10, 10, 1);
    {
        let i = data.map.xy_idx(8, 8);
        data.map.tiles[i] = Tile::Floor;
    }
    {
        let i = data.map.xy_idx(3, 3);
        data.map.tiles[i] = Tile::Floor;
    }
    AreaStartingPosition::new(XStart::Left, YStart::Top).build_map(&mut data);
    assert_eq!(data.starting_position, Some(Position { x: 3, y: 3 }));
    AreaStartingPosition::new(XStart::Right, YStart::Bottom).build_map(&mut data);
    assert_eq!(data.starting_position, Some(Position { x: 8, y: 8 }));
}

#[test]
fn unreachable_floor_becomes_wall() {
    let mut data = MapBuilder::new(10, 10, 1);
    for x in 1..4 {
        {
        let i = data.map.xy_idx(x, 1);
        data.map.tiles[i] = Tile::Floor;
    }
    }
    {
        let i = data.map.xy_idx(4, 2);
        data.map.tiles[i] = Tile::Floor;
    }
    {
        let i = data.map.xy_idx(7, 7);
        data.map.tiles[i] = Tile::Floor;
    }
    data.starting_position = Some(Position { x: 1, y: 1 });
    CullUnreachable.build_map(&mut data);
    assert_eq!(data.map.tiles[data.map.xy_idx(4, 2)], Tile::Floor);
    assert_eq!(data.map.tiles[data.map.xy_idx(3, 1)], Tile::Floor);
    assert_eq!(data.map.tiles[data.map.xy_idx(7, 7)], Tile::Wall);
}

#[test]
fn room_based_start_needs_rooms() {
    let mut data = MapBuilder::new(20, 20, 1);
    assert_eq!(RoomBasedStartingPosition.build_map(&mut data), Err(BuildError::MissingRooms));
    data.rooms = Some(vec![Rect::new(2, 3, 6, 4)]);
    assert_eq!(RoomBasedStartingPosition.build_map(&mut data), Ok(()));
    assert_eq!(data.starting_position, Some(Position { x: 5, y: 5 }));
    let raws = registry();
    let mut empty = MapBuilder::new(20, 20, 1);
    assert_eq!(RoomBasedSpawner.build_map(&mut empty, &raws), Err(BuildError::MissingRooms));
}

#[test]
fn spawned_entries_lie_inside_the_room() {
    let raws = registry();
    let room = Rect::new(2, 2, 5, 4);
    let mut list = Vec::new();
    spawn_room(&mut list, &room, 3, 4, &raws);
    assert!(list.len() >= 2 && list.len() <= 7);
    for (pos, name) in &list {
        assert!(pos.x > 2 && pos.x < 7 && pos.y > 2 && pos.y < 6);
        assert!(name == "Orc" || name == "Health Potion");
    }
}

#[test]
fn a_chain_builds_a_map_and_spawns_its_list() {
    let raws = registry();
    let mut chain = MapBuilderChain::new(80, 50, 1, InitialBuilder::Simple(SimpleMap))
        .with(MetaBuilder::RoomBasedStartingPosition(RoomBasedStartingPosition))
        .with(MetaBuilder::RoomBasedSpawner(RoomBasedSpawner));
    assert_eq!(chain.build_map(&raws), Ok(()));
    let map = &chain.build_data.map;
    assert_eq!((map.width, map.height), (80, 50));
    let start = chain.starting_position();
    assert_eq!(map.tiles[map.xy_idx(start.x, start.y)], Tile::Floor);
    let mut world = World::new();
    chain.spawn_entities(&mut world, &raws);
    assert_eq!(world.entities.len(), chain.build_data.spawn_list.len());
    let mut failing = MapBuilderChain::new(30, 30, 1, InitialBuilder::Drunkard(DrunkardsWalk::open_area()))
        .with(MetaBuilder::RoomBasedStartingPosition(RoomBasedStartingPosition));
    assert_eq!(failing.build_map(&raws), Err(BuildError::MissingRooms));
    let mut no_start = MapBuilderChain::new(30, 30, 1, InitialBuilder::Drunkard(DrunkardsWalk::open_area()))
        .with(MetaBuilder::CullUnreachable(CullUnreachable));
    assert_eq!(no_start.build_map(&raws), Err(BuildError::MissingStartingPosition));
    let mut plain = MapBuilderChain::new(30, 30, 1, InitialBuilder::Cellular(CellularAutomata));
    assert_eq!(plain.build_map(&raws), Ok(()));
}

#[test]
fn culling_reaches_the_top_row_and_left_column() {
    let mut data = MapBuilder::new(6, 6, 1);
    for (x, y) in [(0u32, 0u32), (1, 0), (1, 1), (2, 2), (4, 4)] {
        let i = data.map.xy_idx(x, y);
        data.map.tiles[i] = Tile::Floor;
    }
    data.starting_position = Some(Position { x: 1, y: 1 });
    CullUnreachable.build_map(&mut data);
    assert_eq!(data.map.tiles[0], Tile::Floor);
    assert_eq!(data.map.tiles[1], Tile::Floor);
    assert_eq!(data.map.tiles[data.map.xy_idx(2, 2)], Tile::Floor);
    assert_eq!(data.map.tiles[data.map.xy_idx(4, 4)], Tile::Wall);
}

#[test]
fn cellular_rolls_seed_walls_below_the_percentage() {
    let mut data = MapBuilder::new(3, 3, 1);
    let rolls: Vec<i64> = vec![0, 99, 44, 45, 10, 80, 50, 60, 70];
    CellularAutomata.build_from_rolls(&mut data, &rolls);
    // Only the centre is interior; the border keeps its seed: wall exactly below 45.
    assert_eq!(data.map.tiles[0], Tile::Wall);
    assert_eq!(data.map.tiles[1], Tile::Floor);
    assert_eq!(data.map.tiles[2], Tile::Wall);
    assert_eq!(data.map.tiles[3], Tile::Floor);
    assert_eq!(data.map.tiles[8], Tile::Floor);
    // The centre has two wall neighbours, so it becomes floor, and it is the starting point.
    assert_eq!(data.map.tiles[4], Tile::Floor);
    assert_eq!(data.starting_position, Some(Position { x: 1, y: 1 }));
}

#[test]
fn a_walker_carves_exactly_where_it_stands() {
    let mut map = GameMap::new(6, 6, 1);
    walk(&mut map, 2, 2, &vec![1, 1, 1, 3, 2, 0]);
    let floors: Vec<usize> = (0..36).filter(|&i| map.tiles[i] == Tile::Floor).collect();
    // (2,2) (3,2) (4,2) (4,2 again: the ring stops it) (4,3) (4,2) (3,2)
    assert_eq!(floors, vec![14, 15, 16, 22]);
}

#[test]
fn drunkards_report_their_walkers() {
    let mut data = MapBuilder::new(20, 20, 1);
    let walkers = DrunkardsWalk::winding_passages().build_map(&mut data);
    assert!(walkers >= 1);
    assert!(count_floor(&data.map) >= 160 || walkers == 400);
}

#[test]
fn a_corridor_runs_along_the_row_then_the_column() {
    let mut map = GameMap::new(8, 8, 1);
    draw_corridor(&mut map, 1, 1, 4, 3);
    let floors: Vec<usize> = (0..64).filter(|&i| map.tiles[i] == Tile::Floor).collect();
    assert_eq!(floors, vec![10, 11, 12, 20, 28]);
}
