use sushy_core::component::{AreaOfEffect, CombatStats, Consumable, Entity, InBackpack, InflictsDamage, Item, Name, Paralyze, Player, Position, ProvidesHealing, Ranged, Viewshed, WantsToPickupItem, WantsToUseItem, DropItem};
use sushy_core::game::{State, TurnAction};
use sushy_core::gamelog::LogEntry;
use sushy_core::geom::{Point, Rect};
use sushy_core::inventory::{ItemCollectionSystem, ItemDropSystem, ItemUseSystem};
use sushy_core::map::{GameMap, TileType, MIN_ROOMS};
use sushy_core::map_indexing::MapIndexingSystem;
use sushy_core::player::{get_item, try_target_object, try_drop_item, try_move_player, try_next_level, try_use_item};
use bracket_lib::prelude::RandomNumberGenerator;
use sushy_core::saveload::{load_game, save_game, snapshot_ok_to_load};
use sushy_core::spawner::{pick_weighted, room_table, SpawnKind};
use sushy_core::state::{MainMenuState, RunState};
use sushy_core::turn_healing::TurnHealing;
use sushy_core::visibility::{clip_field_of_view, VisibilitySystem};
use sushy_core::world::{Components, World};

fn open_map() -> GameMap {
    let mut m = GameMap::new_filled(1);
    for y in 1..63 {
        for x in 1..63 {
            m.tiles[y * 64 + x].tiletype = TileType::Floor;
        }
    }
    m
}

fn creature(w: &mut World, name: &str, x: i32, y: i32, hp: i32) -> Entity {
    let mut c = Components::empty();
    c.position = Some(Position { x, y });
    c.name = Some(Name { name: name.to_string() });
    c.combat_stats = Some(CombatStats { max_hp: 30, hp, defense: 0, power: 1 });
    w.create_entity(c)
}

fn with_player(w: &mut World, x: i32, y: i32) -> Entity {
    let p = creature(w, "Player", x, y, 20);
    w.players[p.id] = Some(Player {});
    w.viewsheds[p.id] = Some(Viewshed { visible_tiles: Vec::new(), range: 8, dirty: true });
    w.player_entity = p;
    w.player_pos = Point { x, y };
    p
}

#[test]
fn generated_levels_are_well_formed() {
    for seed in 0..5u64 {
        let mut rng = RandomNumberGenerator::seeded(seed);
        let (m, rounds) = GameMap::new_map_rooms_and_corridors(2, &mut rng);
        assert!(rounds >= 1);
        assert_eq!(m.depth, 2);
        assert!(m.rooms.len() >= MIN_ROOMS as usize);
        for i in 0..m.rooms.len() {
            for j in (i + 1)..m.rooms.len() {
                assert!(!m.rooms[i].intersect(&m.rooms[j]));
            }
        }
        let stairs: Vec<usize> = (0..4096).filter(|&i| m.tiles[i].tiletype == TileType::DownStairs).collect();
        assert_eq!(stairs.len(), 1);
        let (cx, cy) = m.rooms[m.rooms.len() - 1].center();
        assert_eq!(stairs[0], (cy * 64 + cx) as usize);
    }
}

#[test]
fn generated_rooms_vary_in_size_and_place() {
    let mut rng = RandomNumberGenerator::seeded(7);
    let (m, _) = GameMap::new_map_rooms_and_corridors(1, &mut rng);
    let widths: Vec<i32> = m.rooms.iter().map(|r| r.x2 - r.x1).collect();
    let lefts: Vec<i32> = m.rooms.iter().map(|r| r.x1).collect();
    assert!(widths.iter().any(|&w| w != widths[0]));
    assert!(lefts.iter().any(|&x| x != lefts[0]));
    assert!(widths.iter().all(|&w| (5..15).contains(&w)));
}

#[test]
fn rect_geometry() {
    let a = Rect::new(1, 1, 4, 4);
    assert_eq!(a, Rect { x1: 1, y1: 1, x2: 5, y2: 5 });
    assert_eq!(a.center(), (3, 3));
    assert!(a.intersect(&Rect::new(5, 5, 3, 3)));
    assert!(!a.intersect(&Rect::new(6, 6, 3, 3)));
}

#[test]
fn exits_have_orthogonal_and_diagonal_costs() {
    let mut m = open_map();
    m.populate_blocked();
    let exits = m.get_available_exits(5 * 64 + 5);
    assert_eq!(exits.len(), 8);
    assert_eq!(exits[0], (5 * 64 + 4, 100));
    assert_eq!(exits[4], (4 * 64 + 4, 145));
    m.blocked[5 * 64 + 4] = true;
    let exits = m.get_available_exits(5 * 64 + 5);
    assert_eq!(exits.len(), 7);
    let corner = m.get_available_exits(64 + 1);
    assert_eq!(corner.len(), 3);
}

#[test]
fn recomputed_view_is_the_same_and_within_range() {
    let mut w = World::new(open_map());
    let p = with_player(&mut w, 10, 10);
    let fov = vec![Point { x: 10, y: 10 }, Point { x: 12, y: 10 }, Point { x: 19, y: 10 }, Point { x: 13, y: 14 }, Point { x: -1, y: 3 }];
    let mut vis = VisibilitySystem {};
    assert_eq!(vis.needs_view(&w, p), Some((Point { x: 10, y: 10 }, 8)));
    vis.apply_view(&mut w, p, &fov);
    let first = w.viewsheds[p.id].as_ref().unwrap().visible_tiles.clone();
    assert_eq!(first, vec![Point { x: 10, y: 10 }, Point { x: 12, y: 10 }, Point { x: 13, y: 14 }]);
    assert!(!w.viewsheds[p.id].as_ref().unwrap().dirty);
    assert!(w.map.visible_tiles[10 * 64 + 12] && w.map.revealed_tiles[10 * 64 + 12]);
    assert!(!w.map.visible_tiles[10 * 64 + 19]);
    w.viewsheds[p.id].as_mut().unwrap().dirty = true;
    vis.apply_view(&mut w, p, &fov);
    assert_eq!(w.viewsheds[p.id].as_ref().unwrap().visible_tiles, first);
    for t in &first {
        let (dx, dy) = (t.x - 10, t.y - 10);
        assert!(dx * dx + dy * dy <= 64);
    }
    assert_eq!(clip_field_of_view(&fov, Point { x: 10, y: 10 }, 2), vec![Point { x: 10, y: 10 }, Point { x: 12, y: 10 }]);
}

#[test]
fn player_view_resets_visible_but_keeps_revealed() {
    let mut w = World::new(open_map());
    let p = with_player(&mut w, 10, 10);
    let mut vis = VisibilitySystem {};
    vis.apply_view(&mut w, p, &vec![Point { x: 11, y: 10 }]);
    w.viewsheds[p.id].as_mut().unwrap().dirty = true;
    vis.apply_view(&mut w, p, &vec![Point { x: 9, y: 10 }]);
    assert!(!w.map.visible_tiles[10 * 64 + 11]);
    assert!(w.map.revealed_tiles[10 * 64 + 11]);
    assert!(w.map.visible_tiles[10 * 64 + 9]);
}

#[test]
fn indexing_lists_occupants_and_blocks() {
    let mut w = World::new(open_map());
    let a = creature(&mut w, "A", 3, 3, 5);
    let b = creature(&mut w, "B", 3, 3, 5);
    w.blocks_tiles[b.id] = Some(sushy_core::component::BlocksTile {});
    MapIndexingSystem {}.run(&mut w);
    assert_eq!(w.map.tile_content[3 * 64 + 3], vec![a, b]);
    assert!(w.map.blocked[3 * 64 + 3]);
    assert!(w.map.blocked[0]);
    assert!(!w.map.blocked[4 * 64 + 4]);
}

fn fireball(w: &mut World) -> Entity {
    let mut c = Components::empty();
    c.name = Some(Name { name: "Fireball Scroll".to_string() });
    c.item = Some(Item {});
    c.consumable = Some(Consumable {});
    c.ranged = Some(Ranged { range: 6 });
    c.inflicts_damage = Some(InflictsDamage { damage: 8 });
    c.aoe = Some(AreaOfEffect { radius: 3 });
    w.create_entity(c)
}

#[test]
fn area_item_hits_exactly_the_blast() {
    let mut w = World::new(open_map());
    let p = with_player(&mut w, 5, 5);
    let near = creature(&mut w, "Near", 20, 20, 20);
    let edge = creature(&mut w, "Edge", 23, 20, 20);
    let far = creature(&mut w, "Far", 24, 20, 20);
    let scroll = fireball(&mut w);
    w.in_backpacks[scroll.id] = Some(InBackpack { owner: p });
    MapIndexingSystem {}.run(&mut w);
    w.wants_use[p.id] = Some(WantsToUseItem { item: scroll, target: Some(Point { x: 20, y: 20 }) });
    let mut items = ItemUseSystem {};
    assert_eq!(items.blast_request(&w, p.id), Some((Point { x: 20, y: 20 }, 3)));
    let mut blast = Vec::new();
    for y in 17..=23 {
        for x in 17..=23 {
            let (dx, dy) = (x - 20, y - 20);
            if dx * dx + dy * dy <= 9 {
                blast.push(Point { x, y });
            }
        }
    }
    let targets = items.collect_targets(&w, p.id, w.wants_use[p.id].unwrap(), &blast);
    assert_eq!(targets.len(), 2);
    assert!(targets.contains(&near) && targets.contains(&edge) && !targets.contains(&far));
    let mut blasts = vec![Vec::new(); w.alive.len()];
    blasts[p.id] = blast;
    items.run(&mut w, &blasts);
    assert_eq!(w.suffer_damage[near.id].as_ref().unwrap().amount, vec![8]);
    assert_eq!(w.suffer_damage[edge.id].as_ref().unwrap().amount, vec![8]);
    assert!(w.suffer_damage[far.id].is_none());
    assert!(!w.alive[scroll.id]);
    assert!(w.wants_use[p.id].is_none());
}

#[test]
fn potion_heals_up_to_max_and_paralysis_overwrites() {
    let mut w = World::new(open_map());
    let p = with_player(&mut w, 5, 5);
    let mut c = Components::empty();
    c.name = Some(Name { name: "Heal Potion".to_string() });
    c.item = Some(Item {});
    c.consumable = Some(Consumable {});
    c.provides_healing = Some(ProvidesHealing { heal_amount: 8 });
    let potion = w.create_entity(c);
    w.combat_stats[p.id] = Some(CombatStats { max_hp: 30, hp: 25, defense: 0, power: 1 });
    w.wants_use[p.id] = Some(WantsToUseItem { item: potion, target: None });
    ItemUseSystem {}.run(&mut w, &Vec::new());
    assert_eq!(w.combat_stats[p.id].unwrap().hp, 30);
    assert!(!w.alive[potion.id]);
    match w.log.entries.last().unwrap() {
        LogEntry::Heal { item, amount } => {
            assert_eq!(item, "Heal Potion");
            assert_eq!(*amount, 8);
        }
        other => panic!("unexpected log entry {:?}", other),
    }

    let victim = creature(&mut w, "Kobolso", 7, 5, 10);
    w.paralyze[victim.id] = Some(Paralyze { turns: 1 });
    let mut c = Components::empty();
    c.name = Some(Name { name: "Paralyze Scroll".to_string() });
    c.item = Some(Item {});
    c.paralyze = Some(Paralyze { turns: 3 });
    let scroll = w.create_entity(c);
    MapIndexingSystem {}.run(&mut w);
    w.wants_use[p.id] = Some(WantsToUseItem { item: scroll, target: Some(Point { x: 7, y: 5 }) });
    ItemUseSystem {}.run(&mut w, &Vec::new());
    assert_eq!(w.paralyze[victim.id], Some(Paralyze { turns: 3 }));
    assert!(w.alive[scroll.id]);
}

#[test]
fn pick_up_then_drop() {
    let mut w = World::new(open_map());
    let p = with_player(&mut w, 5, 5);
    let mut c = Components::empty();
    c.position = Some(Position { x: 5, y: 5 });
    c.name = Some(Name { name: "Iron Sword".to_string() });
    c.item = Some(Item {});
    let sword = w.create_entity(c);
    assert_eq!(get_item(&mut w), RunState::PlayerTurn);
    assert_eq!(w.wants_pickup[p.id], Some(WantsToPickupItem { collected_by: p, item: sword }));
    ItemCollectionSystem {}.run(&mut w);
    assert!(w.positions[sword.id].is_none());
    assert_eq!(w.in_backpacks[sword.id], Some(InBackpack { owner: p }));
    assert!(w.wants_pickup[p.id].is_none());

    w.positions[p.id] = Some(Position { x: 8, y: 9 });
    assert_eq!(try_drop_item(&mut w, 0), RunState::PlayerTurn);
    assert_eq!(w.drop_items[p.id], Some(DropItem { item: sword }));
    ItemDropSystem {}.run(&mut w);
    assert_eq!(w.positions[sword.id], Some(Position { x: 8, y: 9 }));
    assert!(w.in_backpacks[sword.id].is_none());
    match w.log.entries.last().unwrap() {
        LogEntry::DropItem { name } => assert_eq!(name, "Iron Sword"),
        other => panic!("unexpected log entry {:?}", other),
    }
}

#[test]
fn nothing_to_pick_up_is_logged() {
    let mut w = World::new(open_map());
    with_player(&mut w, 5, 5);
    assert_eq!(get_item(&mut w), RunState::PlayerTurn);
    assert!(matches!(w.log.entries.last().unwrap(), LogEntry::NothingHere));
}

#[test]
fn missing_backpack_slot_is_refused() {
    let mut w = World::new(open_map());
    with_player(&mut w, 5, 5);
    assert_eq!(try_use_item(&mut w, 0), RunState::AwaitingInput);
    assert!(matches!(w.log.entries.last().unwrap(), LogEntry::NoSuchItem));
    assert_eq!(try_drop_item(&mut w, -1), RunState::AwaitingInput);
}

#[test]
fn ranged_item_asks_for_a_target() {
    let mut w = World::new(open_map());
    let p = with_player(&mut w, 5, 5);
    let scroll = fireball(&mut w);
    w.in_backpacks[scroll.id] = Some(InBackpack { owner: p });
    assert_eq!(try_use_item(&mut w, 0), RunState::ShowTargeting { range: 6, item: scroll });
    w.viewsheds[p.id] = Some(Viewshed { visible_tiles: vec![Point { x: 8, y: 5 }, Point { x: 12, y: 5 }], range: 8, dirty: false });
    assert_eq!(try_target_object(&mut w, scroll, 6, Point { x: 12, y: 5 }), RunState::AwaitingInput);
    assert_eq!(try_target_object(&mut w, scroll, 6, Point { x: 8, y: 5 }), RunState::PlayerTurn);
    assert_eq!(w.wants_use[p.id], Some(WantsToUseItem { item: scroll, target: Some(Point { x: 8, y: 5 }) }));
}

#[test]
fn moving_attacking_and_walls() {
    let mut w = World::new(open_map());
    let p = with_player(&mut w, 5, 5);
    let foe = creature(&mut w, "Kobolso", 6, 5, 10);
    MapIndexingSystem {}.run(&mut w);
    assert_eq!(try_move_player(1, 0, &mut w), RunState::PlayerTurn);
    assert_eq!(w.wants_melee[p.id].unwrap().target, foe);
    assert_eq!(w.player_pos, Point { x: 5, y: 5 });
    assert_eq!(try_move_player(0, 1, &mut w), RunState::PlayerTurn);
    assert_eq!(w.player_pos, Point { x: 5, y: 6 });
    assert_eq!(w.positions[p.id], Some(Position { x: 5, y: 6 }));
    assert!(w.viewsheds[p.id].as_ref().unwrap().dirty);
    w.positions[p.id] = Some(Position { x: 1, y: 6 });
    assert_eq!(try_move_player(-1, 0, &mut w), RunState::AwaitingInput);
}

#[test]
fn descending_needs_stairs() {
    let mut w = World::new(open_map());
    with_player(&mut w, 5, 5);
    assert_eq!(try_next_level(&mut w), RunState::AwaitingInput);
    assert!(matches!(w.log.entries.last().unwrap(), LogEntry::CannotDescend));
    w.map.tiles[5 * 64 + 5].tiletype = TileType::DownStairs;
    assert_eq!(try_next_level(&mut w), RunState::NextLevel);
}

#[test]
fn turn_cycle() {
    let s = State {};
    assert_eq!(s.update(RunState::PreRun), (RunState::AwaitingInput, TurnAction::RunSystems));
    assert_eq!(s.update(RunState::PlayerTurn), (RunState::SaveGame, TurnAction::RunSystems));
    assert_eq!(s.update(RunState::SaveGame), (RunState::MonsterTurn, TurnAction::Nothing));
    assert_eq!(s.update(RunState::MonsterTurn), (RunState::EndTurn, TurnAction::RunSystems));
    assert_eq!(s.update(RunState::EndTurn), (RunState::AwaitingInput, TurnAction::DeleteTheDead));
    assert_eq!(s.update(RunState::NextLevel), (RunState::PreRun, TurnAction::GotoNextLevel));
    assert_eq!(s.update(RunState::AwaitingInput), (RunState::AwaitingInput, TurnAction::Nothing));
    assert_eq!(s.update(RunState::MainMenu { state: MainMenuState::LoadGame }), (RunState::AwaitingInput, TurnAction::LoadGame));
    let t = RunState::ShowTargeting { range: 6, item: Entity { id: 3 } };
    assert_eq!(s.cancel_targeting(t), RunState::AwaitingInput);
    assert_eq!(s.cancel_targeting(RunState::ShowInventory), RunState::ShowInventory);
}

#[test]
fn natural_healing_every_ten_turns() {
    let mut w = World::new(open_map());
    let p = with_player(&mut w, 5, 5);
    w.turn_heals[p.id] = Some(sushy_core::component::DurationTurnHeal { time: 0 });
    for _ in 0..9 {
        TurnHealing {}.run(&mut w);
    }
    assert_eq!(w.combat_stats[p.id].unwrap().hp, 20);
    TurnHealing {}.run(&mut w);
    assert_eq!(w.combat_stats[p.id].unwrap().hp, 21);
    assert_eq!(w.turn_heals[p.id].unwrap().time, 0);
}

#[test]
fn spawn_table_and_pick() {
    let t = room_table(2);
    assert_eq!(t[1], (SpawnKind::Dragon, 3));
    assert_eq!(pick_weighted(&t, 0), Some(SpawnKind::Kobold));
    assert_eq!(pick_weighted(&t, 9), Some(SpawnKind::Kobold));
    assert_eq!(pick_weighted(&t, 10), Some(SpawnKind::Dragon));
    assert_eq!(pick_weighted(&t, 13), Some(SpawnKind::HealPotion));
    assert_eq!(pick_weighted(&t, 35), Some(SpawnKind::IronShield));
    assert_eq!(pick_weighted(&t, 36), None);
}

#[test]
fn new_game_and_next_level() {
    let s = State {};
    let mut rng = RandomNumberGenerator::seeded(11);
    let mut w = s.new_game(&mut rng);
    let p = w.player_entity;
    let (cx, cy) = w.map.rooms[0].center();
    assert_eq!(w.player_pos, Point { x: cx, y: cy });
    let mut c = Components::empty();
    c.name = Some(Name { name: "Heal Potion".to_string() });
    c.item = Some(Item {});
    c.in_backpack = Some(InBackpack { owner: p });
    let carried = w.create_entity(c);
    let before = w.alive.len();
    s.goto_next_level(&mut w, &mut rng);
    assert_eq!(w.map.depth, 2);
    assert!(w.alive[p.id] && w.alive[carried.id]);
    assert!((1..before).filter(|&i| i != carried.id).all(|i| !w.alive[i]));
    let (cx, cy) = w.map.rooms[0].center();
    assert_eq!(w.positions[p.id], Some(Position { x: cx, y: cy }));
    assert!(matches!(w.log.entries.last().unwrap(), LogEntry::NextLevel));
}

#[test]
fn save_then_load_restores_level_and_player() {
    let s = State {};
    let mut rng = RandomNumberGenerator::seeded(3);
    let mut w = s.new_game(&mut rng);
    s.goto_next_level(&mut w, &mut rng);
    let p = w.player_entity;
    w.combat_stats[p.id] = Some(CombatStats { max_hp: 30, hp: 17, defense: 2, power: 5 });
    let snap = save_game(&w);
    assert!(snapshot_ok_to_load(&snap));
    let tiles: Vec<TileType> = w.map.tiles.iter().map(|t| t.tiletype).collect();
    let pos = w.player_pos;
    let mut other = s.new_game(&mut RandomNumberGenerator::seeded(99));
    assert_eq!(load_game(&mut other, snap, &mut rng), RunState::AwaitingInput);
    assert_eq!(other.map.depth, 2);
    let loaded: Vec<TileType> = other.map.tiles.iter().map(|t| t.tiletype).collect();
    assert_eq!(loaded, tiles);
    assert_eq!(other.player_pos, pos);
    assert_eq!(other.combat_stats[other.player_entity.id].unwrap().hp, 17);
    assert!(other.map.tile_content.iter().all(|c| c.is_empty()));
}

#[test]
fn view_edges_around_a_position() {
    let p = Position { x: 20, y: 30 };
    assert_eq!(p.to_left(), 6);
    assert_eq!(p.to_top(), 21);
    assert_eq!(p.to_right(), 35);
    assert_eq!(p.to_buttom(), 40);
    assert_eq!(sushy_core::component::point_to_left(Point { x: 20, y: 30 }), 6);
    assert_eq!(sushy_core::component::point_to_top(Point { x: 20, y: 30 }), 21);
}

#[test]
fn monster_heals_itself_without_a_target_point() {
    let mut w = World::new(open_map());
    with_player(&mut w, 5, 5);
    let m = creature(&mut w, "Kobolso", 9, 9, 4);
    let mut c = Components::empty();
    c.name = Some(Name { name: "Heal Potion".to_string() });
    c.item = Some(Item {});
    c.provides_healing = Some(ProvidesHealing { heal_amount: 8 });
    let potion = w.create_entity(c);
    w.wants_use[m.id] = Some(WantsToUseItem { item: potion, target: None });
    ItemUseSystem {}.run(&mut w, &Vec::new());
    assert_eq!(w.combat_stats[m.id].unwrap().hp, 12);
    assert_eq!(w.combat_stats[w.player_entity.id].unwrap().hp, 20);
    assert!(w.alive[potion.id]);
    assert!(w.provides_healing[potion.id].is_some());
}

#[test]
fn two_intents_in_one_pass() {
    let mut w = World::new(open_map());
    let p = with_player(&mut w, 5, 5);
    let m = creature(&mut w, "Kobolso", 9, 9, 10);
    let mut c = Components::empty();
    c.name = Some(Name { name: "Heal Potion".to_string() });
    c.item = Some(Item {});
    c.consumable = Some(Consumable {});
    c.provides_healing = Some(ProvidesHealing { heal_amount: 3 });
    let potion = w.create_entity(c);
    let scroll = fireball(&mut w);
    MapIndexingSystem {}.run(&mut w);
    w.wants_use[p.id] = Some(WantsToUseItem { item: potion, target: None });
    w.wants_use[m.id] = Some(WantsToUseItem { item: scroll, target: Some(Point { x: 5, y: 5 }) });
    let mut blasts = vec![Vec::new(); w.alive.len()];
    blasts[m.id] = vec![Point { x: 5, y: 5 }];
    ItemUseSystem {}.run(&mut w, &blasts);
    assert_eq!(w.combat_stats[p.id].unwrap().hp, 23);
    assert_eq!(w.suffer_damage[p.id].as_ref().unwrap().amount, vec![8]);
    assert!(!w.alive[potion.id] && !w.alive[scroll.id]);
}

#[test]
fn rejected_room_changes_nothing_and_kept_room_is_carved() {
    let mut m = GameMap::new_filled(1);
    GameMap::place_room(&mut m, Rect::new(2, 2, 6, 6), true);
    assert_eq!(m.rooms.len(), 1);
    assert_eq!(m.tiles[4 * 64 + 4].tiletype, TileType::Floor);
    assert_eq!(m.tiles[2 * 64 + 2].tiletype, TileType::Wall);
    GameMap::place_room(&mut m, Rect::new(5, 5, 6, 6), true);
    assert_eq!(m.rooms.len(), 1);
    assert_eq!(m.tiles[10 * 64 + 10].tiletype, TileType::Wall);
    GameMap::place_room(&mut m, Rect::new(20, 20, 6, 6), true);
    assert_eq!(m.rooms.len(), 2);
    // corridor from (5, 5) along row 5 to column 23, then down to row 23
    assert_eq!(m.tiles[5 * 64 + 15].tiletype, TileType::Floor);
    assert_eq!(m.tiles[15 * 64 + 23].tiletype, TileType::Floor);
    assert_eq!(m.tiles[15 * 64 + 5].tiletype, TileType::Wall);
}

#[test]
fn generated_border_is_wall_and_rooms_sized() {
    let mut rng = RandomNumberGenerator::seeded(21);
    let (m, rounds) = GameMap::new_map_rooms_and_corridors(3, &mut rng);
    assert!(m.rooms.len() >= MIN_ROOMS as usize || rounds == sushy_core::map::MAX_ROUNDS);
    for i in 0..64 {
        for &(x, y) in &[(i, 0), (i, 63), (0, i), (63, i)] {
            assert_eq!(m.tiles[y * 64 + x].tiletype, TileType::Wall);
        }
    }
    for r in &m.rooms {
        assert!((5..15).contains(&(r.x2 - r.x1)) && (5..15).contains(&(r.y2 - r.y1)));
    }
}

#[test]
fn centre_rounds_toward_zero() {
    assert_eq!(Rect { x1: -5, x2: 0, y1: -3, y2: 2 }.center(), (-2, 0));
    assert_eq!(Rect { x1: 1, x2: 4, y1: 2, y2: 7 }.center(), (2, 4));
}

#[test]
fn rounds_stop_once_enough_rooms_are_kept() {
    let mut draws = Vec::new();
    for k in 0..(3 * sushy_core::map::MAX_ROUNDS) {
        let i = k % 12;
        draws.push((Rect::new(1 + (i % 4) * 15, 1 + (i / 4) * 18, 6, 6), k % 2 == 0));
    }
    let (m, rounds) = GameMap::place_rounds(GameMap::new_filled(1), &draws);
    assert_eq!(rounds, 4);
    assert_eq!(m.rooms.len(), 12);
}
