use tailarc::components::{
    CanSufferDamage, CombatStats, ConsumableEffects, EntityName, EquipmentSlot, Equippable,
    Equipped, ItemStats, Owned, Position, Viewshed, WantsToDropItem, WantsToMelee,
    WantsToUseItem,
};
use tailarc::gamelog::{GameLog, LogEntry};
use tailarc::map::{GameMap, Tile};
use tailarc::run_state::{
    next_turn_state_system, run_if_in_game, DropItemResult, ItemMenuResult, MainMenuResult,
    MainMenuSelection, RunState, TurnAction,
};
use tailarc::systems::damage::{damage_system, delete_the_dead};
use tailarc::systems::drop_item::drop_item_system;
use tailarc::systems::input::{player_input_system, InputKey};
use tailarc::systems::inventory::{item_collection_system, pickup_item};
use tailarc::systems::map_indexing::map_indexing_system;
use tailarc::systems::melee_combat::{melee_combat_system, melee_damage_of};
use tailarc::systems::monster_ai::{monster_ai_step, wants_path};
use tailarc::systems::use_item::{use_item_system, IntentError};
use tailarc::systems::visibility::visibility_system;
use tailarc::world::{Entity, World};

fn bordered(width: u32, height: u32) -> GameMap {
    let mut map = GameMap::new(width, height, 1);
    for y in 1..height - 1 {
        for x in 1..width - 1 {
            let idx = map.xy_idx(x, y);
            map.tiles[idx] = Tile::Floor;
        }
    }
    map.populate_blocked();
    map
}

fn fighter(name: &str, x: u32, y: u32, hp: i32, defense: i32, power: i32) -> Entity {
    let mut e = Entity::new();
    e.name = Some(EntityName { name: name.to_string() });
    e.position = Some(Position { x, y });
    e.stats = Some(CombatStats { hp, max_hp: hp, defense, power });
    e.can_suffer_damage = Some(CanSufferDamage { amount: Vec::new() });
    e.viewshed = Some(Viewshed::new(8));
    e
}

fn player_at(x: u32, y: u32, power: i32) -> Entity {
    let mut e = fighter("Player", x, y, 100, 2, power);
    e.player = true;
    e
}

fn monster_at(x: u32, y: u32, defense: i32) -> Entity {
    let mut e = fighter("Orc", x, y, 30, defense, 4);
    e.mob = true;
    e.blocks_tile = true;
    e
}

fn named_item(name: &str) -> Entity {
    let mut e = Entity::new();
    e.item = true;
    e.name = Some(EntityName { name: name.to_string() });
    e
}

#[test]
fn player_attack_hits_for_power_minus_defense() {
    let mut map = bordered(10, 10);
    let mut world = World::new();
    let player = world.spawn(player_at(5, 5, 10));
    let monster = world.spawn(monster_at(6, 5, 2));
    map_indexing_system(&world, &mut map);
    let mut log = GameLog::new();
    let mut state = RunState::AwaitingInput;
    player_input_system(&mut world, &map, &mut log, &mut state, player, Some(InputKey::Right));
    assert_eq!(state, RunState::Player);
    assert_eq!(world.entities[player].position, Some(Position { x: 5, y: 5 }));
    assert_eq!(world.entities[player].wants_to_melee, Some(WantsToMelee { target: monster }));
    assert_eq!(melee_damage_of(&world, player, monster), 8);
    melee_combat_system(&mut world, &mut log);
    assert!(world.entities[player].wants_to_melee.is_none());
    assert!(matches!(&log.entries[0], LogEntry::Hit { damage: 8, .. }));
    assert_eq!(world.entities[monster].can_suffer_damage.as_ref().unwrap().amount, vec![8]);
    damage_system(&mut world, &mut map);
    assert_eq!(world.entities[monster].stats.unwrap().hp, 22);
    assert!(world.entities[monster].can_suffer_damage.as_ref().unwrap().amount.is_empty());
    let idx = map.xy_idx(6, 5);
    assert!(map.bloodstains.contains(&idx));
}

#[test]
fn weak_attack_does_no_damage() {
    let mut world = World::new();
    let a = world.spawn(player_at(2, 2, 1));
    let t = world.spawn(monster_at(3, 2, 5));
    world.entities[a].wants_to_melee = Some(WantsToMelee { target: t });
    assert_eq!(melee_damage_of(&world, a, t), 0);
    let mut log = GameLog::new();
    melee_combat_system(&mut world, &mut log);
    assert!(matches!(&log.entries[0], LogEntry::UnableToHurt { .. }));
    assert!(world.entities[t].can_suffer_damage.as_ref().unwrap().amount.is_empty());
}

#[test]
fn equipped_bonuses_count_in_melee() {
    let mut world = World::new();
    let a = world.spawn(player_at(2, 2, 3));
    let t = world.spawn(monster_at(3, 2, 2));
    let mut sword = named_item("Sword");
    sword.equipped = Some(Equipped { by: a, slot: EquipmentSlot::Melee });
    sword.item_stats = Some(ItemStats { power: 4, defense: 0 });
    world.spawn(sword);
    let mut shield = named_item("Shield");
    shield.equipped = Some(Equipped { by: t, slot: EquipmentSlot::Shield });
    shield.item_stats = Some(ItemStats { power: 0, defense: 1 });
    world.spawn(shield);
    assert_eq!(melee_damage_of(&world, a, t), 4);
}

#[test]
fn attacking_a_despawned_target_hits_air() {
    let mut world = World::new();
    let a = world.spawn(player_at(2, 2, 5));
    let t = world.spawn(monster_at(3, 2, 0));
    world.despawn(t);
    world.entities[a].wants_to_melee = Some(WantsToMelee { target: t });
    let mut log = GameLog::new();
    melee_combat_system(&mut world, &mut log);
    assert!(matches!(&log.entries[0], LogEntry::HackedAtAir { .. }));
}

#[test]
fn melee_twice_is_a_no_op_the_second_time() {
    let mut world = World::new();
    let a = world.spawn(player_at(2, 2, 9));
    let t = world.spawn(monster_at(3, 2, 1));
    world.entities[a].wants_to_melee = Some(WantsToMelee { target: t });
    let mut log = GameLog::new();
    melee_combat_system(&mut world, &mut log);
    melee_combat_system(&mut world, &mut log);
    assert_eq!(log.entries.len(), 1);
    assert_eq!(world.entities[t].can_suffer_damage.as_ref().unwrap().amount, vec![8]);
}

#[test]
fn several_hits_on_one_target_add_up() {
    let mut map = bordered(6, 6);
    let mut world = World::new();
    let t = world.spawn(monster_at(2, 2, 0));
    let a = world.spawn(player_at(1, 2, 3));
    let b = world.spawn(monster_at(3, 2, 0));
    world.entities[a].wants_to_melee = Some(WantsToMelee { target: t });
    world.entities[b].wants_to_melee = Some(WantsToMelee { target: t });
    let mut log = GameLog::new();
    melee_combat_system(&mut world, &mut log);
    assert_eq!(world.entities[t].can_suffer_damage.as_ref().unwrap().amount, vec![3, 4]);
    damage_system(&mut world, &mut map);
    assert_eq!(world.entities[t].stats.unwrap().hp, 23);
}

#[test]
fn monster_next_to_player_attacks_and_stays() {
    let mut map = bordered(10, 10);
    let mut world = World::new();
    let player = world.spawn(player_at(2, 1, 5));
    let monster = world.spawn(monster_at(1, 1, 0));
    world.entities[monster].viewshed.as_mut().unwrap().visible_tiles = vec![Position { x: 2, y: 1 }];
    world.entities[monster].viewshed.as_mut().unwrap().dirty = false;
    map_indexing_system(&world, &mut map);
    assert!(!wants_path(&world, monster, player));
    monster_ai_step(&mut world, &mut map, monster, player, &Vec::new());
    assert_eq!(world.entities[monster].wants_to_melee, Some(WantsToMelee { target: player }));
    assert_eq!(world.entities[monster].position, Some(Position { x: 1, y: 1 }));
}

#[test]
fn monster_without_a_path_stays_idle() {
    let mut map = bordered(10, 10);
    let mut world = World::new();
    let player = world.spawn(player_at(8, 8, 5));
    let monster = world.spawn(monster_at(1, 1, 0));
    world.entities[monster].viewshed.as_mut().unwrap().visible_tiles = vec![Position { x: 8, y: 8 }];
    world.entities[monster].viewshed.as_mut().unwrap().dirty = false;
    map_indexing_system(&world, &mut map);
    assert!(wants_path(&world, monster, player));
    monster_ai_step(&mut world, &mut map, monster, player, &Vec::new());
    assert!(world.entities[monster].wants_to_melee.is_none());
    assert_eq!(world.entities[monster].position, Some(Position { x: 1, y: 1 }));
}

#[test]
fn monster_steps_along_its_path() {
    let mut map = bordered(10, 10);
    let mut world = World::new();
    let player = world.spawn(player_at(5, 1, 5));
    let monster = world.spawn(monster_at(1, 1, 0));
    world.entities[monster].viewshed.as_mut().unwrap().visible_tiles = vec![Position { x: 5, y: 1 }];
    world.entities[monster].viewshed.as_mut().unwrap().dirty = false;
    map_indexing_system(&world, &mut map);
    let path = vec![map.xy_idx(1, 1), map.xy_idx(2, 1), map.xy_idx(3, 1)];
    monster_ai_step(&mut world, &mut map, monster, player, &path);
    assert_eq!(world.entities[monster].position, Some(Position { x: 2, y: 1 }));
    assert!(world.entities[monster].viewshed.as_ref().unwrap().dirty);
    assert!(!map.blocked[map.xy_idx(1, 1)]);
    assert!(map.blocked[map.xy_idx(2, 1)]);
}

#[test]
fn monster_that_cannot_see_the_player_idles() {
    let mut map = bordered(10, 10);
    let mut world = World::new();
    let player = world.spawn(player_at(2, 1, 5));
    let monster = world.spawn(monster_at(1, 1, 0));
    world.entities[monster].viewshed.as_mut().unwrap().dirty = false;
    map_indexing_system(&world, &mut map);
    monster_ai_step(&mut world, &mut map, monster, player, &Vec::new());
    assert!(world.entities[monster].wants_to_melee.is_none());
}

#[test]
fn healing_potion_is_clamped_and_consumed() {
    let mut world = World::new();
    let mut p = player_at(2, 2, 5);
    p.stats = Some(CombatStats { hp: 50, max_hp: 60, defense: 2, power: 5 });
    let player = world.spawn(p);
    let mut potion = named_item("Health Potion");
    potion.consumable = Some(ConsumableEffects { heal: Some(20) });
    potion.owned = Some(Owned { owner: player });
    let potion = world.spawn(potion);
    world.entities[player].wants_to_use = Some(WantsToUseItem { item: potion });
    let mut log = GameLog::new();
    assert_eq!(use_item_system(&mut world, &mut log), Ok(()));
    assert_eq!(world.entities[player].stats.unwrap().hp, 60);
    assert!(!world.entities[potion].alive);
    assert!(!world.entities[potion].item);
    assert!(world.entities[player].wants_to_use.is_none());
    assert!(matches!(&log.entries[0], LogEntry::Used { .. }));
}

#[test]
fn equipping_swaps_the_item_in_the_same_slot() {
    let mut world = World::new();
    let player = world.spawn(player_at(2, 2, 5));
    let mut old_sword = named_item("Dagger");
    old_sword.equippable = Some(Equippable { slot: EquipmentSlot::Melee });
    old_sword.equipped = Some(Equipped { by: player, slot: EquipmentSlot::Melee });
    let old_sword = world.spawn(old_sword);
    let mut new_sword = named_item("Longsword");
    new_sword.equippable = Some(Equippable { slot: EquipmentSlot::Melee });
    new_sword.owned = Some(Owned { owner: player });
    let new_sword = world.spawn(new_sword);
    world.entities[player].wants_to_use = Some(WantsToUseItem { item: new_sword });
    let mut log = GameLog::new();
    assert_eq!(use_item_system(&mut world, &mut log), Ok(()));
    assert_eq!(world.entities[new_sword].equipped, Some(Equipped { by: player, slot: EquipmentSlot::Melee }));
    assert!(world.entities[new_sword].owned.is_none());
    assert!(world.entities[old_sword].equipped.is_none());
    assert_eq!(world.entities[old_sword].owned, Some(Owned { owner: player }));
    assert_eq!(log.entries.len(), 2);
    assert!(matches!(&log.entries[0], LogEntry::Unequipped { .. }));
    assert!(matches!(&log.entries[1], LogEntry::Equipped { .. }));
}

#[test]
fn using_an_item_one_does_not_own_fails() {
    let mut world = World::new();
    let player = world.spawn(player_at(2, 2, 5));
    let item = world.spawn(named_item("Rock"));
    world.entities[player].wants_to_use = Some(WantsToUseItem { item });
    let mut log = GameLog::new();
    assert_eq!(
        use_item_system(&mut world, &mut log),
        Err(IntentError::NotOwned { entity: player, item })
    );
}

#[test]
fn an_item_that_does_nothing_cannot_be_used() {
    let mut world = World::new();
    let player = world.spawn(player_at(2, 2, 5));
    let mut rock = named_item("Rock");
    rock.owned = Some(Owned { owner: player });
    let rock = world.spawn(rock);
    world.entities[player].wants_to_use = Some(WantsToUseItem { item: rock });
    let mut log = GameLog::new();
    assert_eq!(use_item_system(&mut world, &mut log), Ok(()));
    assert!(matches!(&log.entries[0], LogEntry::CannotUse));
    assert!(world.entities[player].wants_to_use.is_none());
    assert_eq!(use_item_system(&mut world, &mut log), Ok(()));
    assert_eq!(log.entries.len(), 1);
}

#[test]
fn dropping_puts_the_item_on_the_droppers_cell() {
    let mut world = World::new();
    let player = world.spawn(player_at(4, 3, 5));
    let mut item = named_item("Potion");
    item.owned = Some(Owned { owner: player });
    let item = world.spawn(item);
    world.entities[player].wants_to_drop = Some(WantsToDropItem { item });
    let mut log = GameLog::new();
    assert_eq!(drop_item_system(&mut world, &mut log), Ok(()));
    assert_eq!(world.entities[item].position, Some(Position { x: 4, y: 3 }));
    assert!(world.entities[item].owned.is_none());
    assert!(world.entities[player].wants_to_drop.is_none());
    assert!(matches!(&log.entries[0], LogEntry::Dropped { .. }));
    assert_eq!(drop_item_system(&mut world, &mut log), Ok(()));
    assert_eq!(log.entries.len(), 1);
}

#[test]
fn dropping_what_one_does_not_own_fails() {
    let mut world = World::new();
    let player = world.spawn(player_at(4, 3, 5));
    let other = world.spawn(player_at(1, 1, 5));
    let mut item = named_item("Potion");
    item.owned = Some(Owned { owner: other });
    let item = world.spawn(item);
    world.entities[player].wants_to_drop = Some(WantsToDropItem { item });
    let mut log = GameLog::new();
    assert_eq!(
        drop_item_system(&mut world, &mut log),
        Err(IntentError::NotOwned { entity: player, item })
    );
}

#[test]
fn picking_up_moves_the_item_into_the_inventory() {
    let mut map = bordered(6, 6);
    let mut world = World::new();
    let player = world.spawn(player_at(2, 2, 5));
    let mut item = named_item("Potion");
    item.position = Some(Position { x: 2, y: 2 });
    let item = world.spawn(item);
    map_indexing_system(&world, &mut map);
    let mut log = GameLog::new();
    let mut state = RunState::AwaitingInput;
    player_input_system(&mut world, &map, &mut log, &mut state, player, Some(InputKey::Comma));
    assert_eq!(state, RunState::Player);
    item_collection_system(&mut world, &mut log);
    assert!(world.entities[item].position.is_none());
    assert_eq!(world.entities[item].owned, Some(Owned { owner: player }));
    assert!(world.entities[player].wants_to_pickup.is_none());
    assert_eq!(log.entries.len(), 1);
    item_collection_system(&mut world, &mut log);
    assert_eq!(log.entries.len(), 1);
}

#[test]
fn nothing_to_pick_up_is_logged() {
    let mut map = bordered(6, 6);
    let mut world = World::new();
    let player = world.spawn(player_at(2, 2, 5));
    map_indexing_system(&world, &mut map);
    let mut log = GameLog::new();
    pickup_item(&mut world, &map, &mut log, player);
    assert!(matches!(&log.entries[0], LogEntry::NothingToPickUp));
}

#[test]
fn moving_into_a_free_cell_and_into_a_wall() {
    let mut map = bordered(6, 6);
    let mut world = World::new();
    let player = world.spawn(player_at(1, 1, 5));
    world.entities[player].viewshed.as_mut().unwrap().dirty = false;
    map_indexing_system(&world, &mut map);
    let mut log = GameLog::new();
    let mut state = RunState::AwaitingInput;
    player_input_system(&mut world, &map, &mut log, &mut state, player, Some(InputKey::N));
    assert_eq!(world.entities[player].position, Some(Position { x: 2, y: 2 }));
    assert!(world.entities[player].viewshed.as_ref().unwrap().dirty);
    let mut state = RunState::AwaitingInput;
    map_indexing_system(&world, &mut map);
    player_input_system(&mut world, &map, &mut log, &mut state, player, Some(InputKey::K));
    player_input_system(&mut world, &map, &mut log, &mut state, player, Some(InputKey::K));
    assert_eq!(world.entities[player].position, Some(Position { x: 2, y: 1 }));
    let mut state = RunState::AwaitingInput;
    player_input_system(&mut world, &map, &mut log, &mut state, player, Some(InputKey::I));
    assert_eq!(state, RunState::ShowInventory);
    let mut state = RunState::AwaitingInput;
    player_input_system(&mut world, &map, &mut log, &mut state, player, Some(InputKey::Other));
    assert_eq!(state, RunState::AwaitingInput);
}

#[test]
fn occupancy_tracks_walls_and_blocking_entities() {
    let mut map = bordered(6, 6);
    let mut world = World::new();
    let m = world.spawn(monster_at(2, 3, 0));
    let mut item = named_item("Coin");
    item.position = Some(Position { x: 4, y: 4 });
    let item = world.spawn(item);
    {
        let i = map.xy_idx(1, 1);
        map.blocked[i] = true;
    }
    map_indexing_system(&world, &mut map);
    for i in 0..36 {
        let expected = map.tiles[i] == Tile::Wall || i == map.xy_idx(2, 3);
        assert_eq!(map.blocked[i], expected);
    }
    assert_eq!(map.tile_content[map.xy_idx(2, 3)], vec![m]);
    assert_eq!(map.tile_content[map.xy_idx(4, 4)], vec![item]);
}

#[test]
fn visibility_reveals_and_never_forgets() {
    let mut map = bordered(6, 6);
    let mut world = World::new();
    let player = world.spawn(player_at(2, 2, 5));
    let mut fov = vec![vec![Position { x: 2, y: 2 }, Position { x: 3, y: 2 }, Position { x: 9, y: 9 }]];
    visibility_system(&mut world, &mut map, &fov, player);
    let v = world.entities[player].viewshed.as_ref().unwrap();
    assert_eq!(v.visible_tiles, vec![Position { x: 2, y: 2 }, Position { x: 3, y: 2 }]);
    assert!(!v.dirty);
    assert!(map.revealed_tiles[map.xy_idx(3, 2)]);
    assert!(map.visible_tiles[map.xy_idx(3, 2)]);
    world.entities[player].viewshed.as_mut().unwrap().dirty = true;
    fov[0] = vec![Position { x: 2, y: 2 }];
    visibility_system(&mut world, &mut map, &fov, player);
    assert!(map.revealed_tiles[map.xy_idx(3, 2)]);
    assert!(!map.visible_tiles[map.xy_idx(3, 2)]);
    assert!(map.visible_tiles[map.xy_idx(2, 2)]);
}

#[test]
fn the_dead_are_removed_and_a_dead_player_ends_the_game() {
    let mut world = World::new();
    let player = world.spawn(player_at(1, 1, 5));
    let monster = world.spawn(monster_at(2, 1, 0));
    world.entities[player].stats.as_mut().unwrap().hp = 0;
    world.entities[monster].stats.as_mut().unwrap().hp = -3;
    let mut log = GameLog::new();
    let mut state = RunState::Monster;
    delete_the_dead(&mut world, &mut log, &mut state);
    assert_eq!(state, RunState::MainMenu);
    assert!(world.entities[player].alive);
    assert!(!world.entities[monster].alive);
    assert!(matches!(&log.entries[0], LogEntry::PlayerDied));
    assert!(matches!(&log.entries[1], LogEntry::IsDead { .. }));
}

#[test]
fn turn_states_cycle() {
    let none = MainMenuResult::NoSelection { selected: MainMenuSelection::NewGame };
    let mut state = RunState::AwaitingInput;
    RunState::advance_state(&mut state);
    assert_eq!(state, RunState::Player);
    assert_eq!(next_turn_state_system(&mut state, none, ItemMenuResult::NoResponse, DropItemResult::NoResponse), TurnAction::Continue);
    assert_eq!(state, RunState::Monster);
    next_turn_state_system(&mut state, none, ItemMenuResult::NoResponse, DropItemResult::NoResponse);
    assert_eq!(state, RunState::AwaitingInput);
    next_turn_state_system(&mut state, none, ItemMenuResult::NoResponse, DropItemResult::NoResponse);
    assert_eq!(state, RunState::AwaitingInput);
    let mut menu = RunState::ShowInventory;
    next_turn_state_system(&mut menu, none, ItemMenuResult::Selected, DropItemResult::NoResponse);
    assert_eq!(menu, RunState::Player);
    let mut menu = RunState::ShowDropItem;
    next_turn_state_system(&mut menu, none, ItemMenuResult::NoResponse, DropItemResult::Cancel);
    assert_eq!(menu, RunState::AwaitingInput);
    let mut main = RunState::MainMenu;
    let quit = MainMenuResult::Selected { selected: MainMenuSelection::Quit };
    assert_eq!(next_turn_state_system(&mut main, quit, ItemMenuResult::NoResponse, DropItemResult::NoResponse), TurnAction::Quit);
    let new_game = MainMenuResult::Selected { selected: MainMenuSelection::NewGame };
    next_turn_state_system(&mut main, new_game, ItemMenuResult::NoResponse, DropItemResult::NoResponse);
    assert_eq!(main, RunState::AwaitingInput);
    assert!(run_if_in_game(RunState::Monster));
    assert!(!run_if_in_game(RunState::MainMenu));
}

#[test]
fn an_attacker_that_cannot_fight_still_loses_its_intent() {
    let mut world = World::new();
    let t = world.spawn(monster_at(3, 2, 0));
    let mut nameless = Entity::new();
    nameless.wants_to_melee = Some(WantsToMelee { target: t });
    let a = world.spawn(nameless);
    let mut log = GameLog::new();
    melee_combat_system(&mut world, &mut log);
    assert!(world.entities[a].wants_to_melee.is_none());
    assert!(matches!(&log.entries[0], LogEntry::HackedAtAir { attacker: None }));
    assert!(world.entities[t].can_suffer_damage.as_ref().unwrap().amount.is_empty());
}

#[test]
fn a_dropper_without_a_position_loses_its_intent() {
    let mut world = World::new();
    let mut holder = Entity::new();
    holder.name = Some(EntityName { name: "Ghost".to_string() });
    let holder = world.spawn(holder);
    let mut item = named_item("Potion");
    item.owned = Some(Owned { owner: holder });
    let item = world.spawn(item);
    world.entities[holder].wants_to_drop = Some(WantsToDropItem { item });
    let mut log = GameLog::new();
    assert_eq!(drop_item_system(&mut world, &mut log), Ok(()));
    assert!(world.entities[holder].wants_to_drop.is_none());
    assert_eq!(world.entities[item].owned, Some(Owned { owner: holder }));
    assert!(log.entries.is_empty());
}

#[test]
fn a_dirty_viewshed_without_a_position_is_cleared() {
    let mut map = bordered(6, 6);
    let mut world = World::new();
    let player = world.spawn(player_at(2, 2, 5));
    let mut watcher = Entity::new();
    watcher.viewshed = Some(Viewshed::new(4));
    let watcher = world.spawn(watcher);
    let fov = vec![vec![Position { x: 2, y: 2 }], Vec::new()];
    visibility_system(&mut world, &mut map, &fov, player);
    let v = world.entities[watcher].viewshed.as_ref().unwrap();
    assert!(!v.dirty);
    assert!(v.visible_tiles.is_empty());
}

#[test]
fn the_players_pick_up_names_the_item() {
    let mut world = World::new();
    let player = world.spawn(player_at(2, 2, 5));
    let mut item = named_item("Dagger");
    item.position = Some(Position { x: 2, y: 2 });
    let item = world.spawn(item);
    let monster = world.spawn(monster_at(3, 3, 0));
    let mut other = named_item("Rock");
    other.position = Some(Position { x: 3, y: 3 });
    let other = world.spawn(other);
    world.entities[player].wants_to_pickup = Some(tailarc::components::WantsToPickupItem { item });
    world.entities[monster].wants_to_pickup = Some(tailarc::components::WantsToPickupItem { item: other });
    let mut log = GameLog::new();
    item_collection_system(&mut world, &mut log);
    assert_eq!(log.entries.len(), 1);
    assert!(matches!(&log.entries[0], LogEntry::PickedUp { name: Some(n) } if n == "Dagger"));
    assert_eq!(world.entities[other].owned, Some(Owned { owner: monster }));
}
