use sushy_core::component::{CombatStats, Entity, Monster, Name, Paralyze, Player, Position, SeenPlayer, SufferDamage, Viewshed, WantsToMelee};
use sushy_core::damage::{delete_the_dead, DamageSystem};
use sushy_core::gamelog::LogEntry;
use sushy_core::geom::Point;
use sushy_core::map::GameMap;
use sushy_core::melee_combat::MeleeCombatSystem;
use sushy_core::monster_ai::MonsterAI;
use sushy_core::state::RunState;
use sushy_core::world::{Components, World};

fn fighter(w: &mut World, name: &str, x: i32, y: i32, hp: i32, defense: i32, power: i32) -> Entity {
    let mut c = Components::empty();
    c.position = Some(Position { x, y });
    c.name = Some(Name { name: name.to_string() });
    c.combat_stats = Some(CombatStats { max_hp: hp, hp, defense, power });
    w.create_entity(c)
}

fn hp(w: &World, e: Entity) -> i32 {
    w.combat_stats[e.id].unwrap().hp
}

#[test]
fn two_hits_in_one_turn_accumulate() {
    let mut w = World::new(GameMap::new_filled(1));
    let target = fighter(&mut w, "Target", 5, 5, 10, 0, 0);
    SufferDamage::new_damage(&mut w.suffer_damage, target, 3);
    SufferDamage::new_damage(&mut w.suffer_damage, target, 4);
    assert_eq!(w.suffer_damage[target.id].as_ref().unwrap().amount, vec![3, 4]);
    DamageSystem {}.run(&mut w);
    assert_eq!(hp(&w, target), 3);
    assert!(w.suffer_damage[target.id].is_none());
}

#[test]
fn damage_never_drops_below_zero() {
    let mut w = World::new(GameMap::new_filled(1));
    let target = fighter(&mut w, "Target", 5, 5, 5, 0, 0);
    SufferDamage::new_damage(&mut w.suffer_damage, target, 8);
    DamageSystem {}.run(&mut w);
    assert_eq!(hp(&w, target), 0);
}

#[test]
fn two_attackers_on_one_target_in_one_pass() {
    let mut w = World::new(GameMap::new_filled(1));
    let a = fighter(&mut w, "A", 4, 5, 10, 0, 3);
    let b = fighter(&mut w, "B", 6, 5, 10, 0, 4);
    let t = fighter(&mut w, "T", 5, 5, 10, 0, 0);
    w.wants_melee[a.id] = Some(WantsToMelee { target: t });
    w.wants_melee[b.id] = Some(WantsToMelee { target: t });
    MeleeCombatSystem {}.run(&mut w);
    assert!(w.wants_melee.iter().all(|m| m.is_none()));
    assert_eq!(w.suffer_damage[t.id].as_ref().unwrap().amount, vec![3, 4]);
    DamageSystem {}.run(&mut w);
    assert_eq!(hp(&w, t), 3);
}

#[test]
fn player_beats_monster_in_six_blows() {
    let mut w = World::new(GameMap::new_filled(1));
    let player = fighter(&mut w, "Player", 5, 5, 30, 2, 5);
    w.players[player.id] = Some(Player {});
    w.player_entity = player;
    let monster = fighter(&mut w, "Kobolso", 6, 5, 16, 2, 4);
    w.monsters[monster.id] = Some(Monster {});
    for blow in 0..6 {
        w.wants_melee[player.id] = Some(WantsToMelee { target: monster });
        MeleeCombatSystem {}.run(&mut w);
        match w.log.entries.last().unwrap() {
            LogEntry::Battle { attacker, target, damage } => {
                assert_eq!(attacker, "Player");
                assert_eq!(target, "Kobolso");
                assert_eq!(*damage, 3);
            }
            other => panic!("unexpected log entry {:?}", other),
        }
        DamageSystem {}.run(&mut w);
        let expected = if 16 - 3 * (blow + 1) > 0 { 16 - 3 * (blow + 1) } else { 0 };
        assert_eq!(hp(&w, monster), expected);
        if blow < 5 {
            delete_the_dead(&mut w);
            assert!(w.alive[monster.id]);
        }
    }
    assert_eq!(hp(&w, monster), 0);
    delete_the_dead(&mut w);
    assert!(!w.alive[monster.id]);
    assert!(w.combat_stats[monster.id].is_none());
    assert!(w.alive[player.id]);
    match w.log.entries.last().unwrap() {
        LogEntry::Dead { name } => assert_eq!(name, "Kobolso"),
        other => panic!("unexpected log entry {:?}", other),
    }
}

#[test]
fn dead_player_is_not_deleted() {
    let mut w = World::new(GameMap::new_filled(1));
    let player = fighter(&mut w, "Player", 5, 5, 30, 2, 5);
    w.players[player.id] = Some(Player {});
    w.combat_stats[player.id] = Some(CombatStats { max_hp: 30, hp: 0, defense: 2, power: 5 });
    delete_the_dead(&mut w);
    assert!(w.alive[player.id]);
}

#[test]
fn melee_skips_dead_attacker() {
    let mut w = World::new(GameMap::new_filled(1));
    let a = fighter(&mut w, "A", 4, 5, 0, 0, 3);
    let t = fighter(&mut w, "T", 5, 5, 10, 5, 0);
    w.wants_melee[a.id] = Some(WantsToMelee { target: t });
    MeleeCombatSystem {}.run(&mut w);
    assert!(w.suffer_damage[t.id].is_none());
    assert!(w.wants_melee[a.id].is_none());
}

#[test]
fn blow_is_never_negative() {
    let mut w = World::new(GameMap::new_filled(1));
    let a = fighter(&mut w, "A", 4, 5, 10, 0, 1);
    let t = fighter(&mut w, "T", 5, 5, 10, 5, 0);
    w.wants_melee[a.id] = Some(WantsToMelee { target: t });
    MeleeCombatSystem {}.run(&mut w);
    assert_eq!(w.suffer_damage[t.id].as_ref().unwrap().amount, vec![0]);
}

fn ai_monster(w: &mut World, x: i32, y: i32, sees_player_at: Point) -> Entity {
    let e = fighter(w, "Kobolso", x, y, 16, 1, 4);
    w.monsters[e.id] = Some(Monster {});
    w.seen_players[e.id] = Some(SeenPlayer { point: None });
    w.viewsheds[e.id] = Some(Viewshed { visible_tiles: vec![sees_player_at], range: 8, dirty: false });
    e
}

#[test]
fn paralysis_costs_exactly_three_turns() {
    let mut w = World::new(GameMap::new_filled(1));
    let player = fighter(&mut w, "Player", 5, 5, 30, 2, 5);
    w.player_entity = player;
    w.player_pos = Point { x: 5, y: 5 };
    let m = ai_monster(&mut w, 6, 5, Point { x: 5, y: 5 });
    w.paralyze[m.id] = Some(Paralyze { turns: 3 });
    let mut ai = MonsterAI {};
    for turn in 0..3 {
        assert_eq!(ai.think(&mut w, RunState::MonsterTurn, m), None);
        assert!(w.wants_melee[m.id].is_none(), "acted on turn {}", turn + 1);
    }
    assert!(w.paralyze[m.id].is_none());
    assert_eq!(ai.think(&mut w, RunState::MonsterTurn, m), None);
    assert_eq!(w.wants_melee[m.id], Some(WantsToMelee { target: player }));
}

#[test]
fn ai_sleeps_outside_monster_turn() {
    let mut w = World::new(GameMap::new_filled(1));
    let player = fighter(&mut w, "Player", 5, 5, 30, 2, 5);
    w.player_entity = player;
    w.player_pos = Point { x: 5, y: 5 };
    let m = ai_monster(&mut w, 6, 5, Point { x: 5, y: 5 });
    assert_eq!(MonsterAI {}.think(&mut w, RunState::PlayerTurn, m), None);
    assert!(w.wants_melee[m.id].is_none());
    assert_eq!(w.seen_players[m.id], Some(SeenPlayer { point: None }));
}

#[test]
fn distant_monster_asks_for_a_path_and_steps() {
    let mut w = World::new(GameMap::new_filled(1));
    let player = fighter(&mut w, "Player", 10, 5, 30, 2, 5);
    w.player_entity = player;
    w.player_pos = Point { x: 10, y: 5 };
    let m = ai_monster(&mut w, 6, 5, Point { x: 10, y: 5 });
    let mut ai = MonsterAI {};
    let request = ai.think(&mut w, RunState::MonsterTurn, m);
    assert_eq!(request, Some((Point { x: 6, y: 5 }, Point { x: 10, y: 5 })));
    let path = vec![5 * 64 + 6, 5 * 64 + 7, 5 * 64 + 8];
    w.map.blocked[5 * 64 + 6] = true;
    ai.follow_path(&mut w, m, &path);
    assert_eq!(w.positions[m.id], Some(Position { x: 7, y: 5 }));
    assert!(!w.map.blocked[5 * 64 + 6]);
    assert!(w.map.blocked[5 * 64 + 7]);
    assert!(w.viewsheds[m.id].as_ref().unwrap().dirty);
    assert_eq!(w.seen_players[m.id], Some(SeenPlayer { point: Some(Point { x: 10, y: 5 }) }));
}

#[test]
fn monster_forgets_reached_memory() {
    let mut w = World::new(GameMap::new_filled(1));
    let player = fighter(&mut w, "Player", 20, 20, 30, 2, 5);
    w.player_entity = player;
    w.player_pos = Point { x: 20, y: 20 };
    let m = ai_monster(&mut w, 6, 5, Point { x: 0, y: 0 });
    w.seen_players[m.id] = Some(SeenPlayer { point: Some(Point { x: 7, y: 5 }) });
    let mut ai = MonsterAI {};
    let request = ai.think(&mut w, RunState::MonsterTurn, m);
    assert_eq!(request, Some((Point { x: 6, y: 5 }, Point { x: 7, y: 5 })));
    ai.follow_path(&mut w, m, &vec![5 * 64 + 6, 5 * 64 + 7]);
    assert_eq!(w.seen_players[m.id], Some(SeenPlayer { point: None }));
}

#[test]
fn monster_ignores_a_path_that_does_not_start_on_its_tile() {
    let mut w = World::new(GameMap::new_filled(1));
    let player = fighter(&mut w, "Player", 10, 5, 30, 2, 5);
    w.player_entity = player;
    w.player_pos = Point { x: 10, y: 5 };
    let m = ai_monster(&mut w, 6, 5, Point { x: 10, y: 5 });
    let mut ai = MonsterAI {};
    ai.think(&mut w, RunState::MonsterTurn, m);
    ai.follow_path(&mut w, m, &vec![5 * 64 + 20, 5 * 64 + 21]);
    assert_eq!(w.positions[m.id], Some(Position { x: 6, y: 5 }));
    ai.follow_path(&mut w, m, &vec![5 * 64 + 6, 9 * 64 + 9]);
    assert_eq!(w.positions[m.id], Some(Position { x: 6, y: 5 }));
    w.map.blocked[5 * 64 + 7] = true;
    ai.follow_path(&mut w, m, &vec![5 * 64 + 6, 5 * 64 + 7]);
    assert_eq!(w.positions[m.id], Some(Position { x: 6, y: 5 }));
}
