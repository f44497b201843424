use vstd::prelude::*;
use bracket_lib::prelude::RandomNumberGenerator;
use crate::component::{AreaOfEffect, BlocksTile, CombatStats, Consumable, DurationTurnHeal, Entity, EquipmentSlot, Equippable, GameImage, InflictsDamage, Item, Monster, Name, Paralyze, Player, Position, Potion, ProvidesHealing, Ranged, Renderable, SeenPlayer, Viewshed};
use crate::geom::Rect;
use crate::map::{MAPSIZE_WIDTH, room_in_bounds};
use crate::rng::roll_die;
use crate::world::{Components, World};

verus! {

pub const MAX_MONSTERS: i32 = 4;
pub const MAX_ITEMS: i32 = 2;
/// The deepest level that can be stocked: the spawn weights of a room at
/// depth `d` sum to `30 + 3 * d`, which must stay within an `i32` die.
pub const MAX_DEPTH: i32 = 700_000_000;
/// Placement attempts per spawn before giving up on it.
pub const SPAWN_TRIES: i32 = 20;

/// What `world` gained from one builder call: a new last entity standing on
/// `(x, y)`, every earlier entity and every resource left as it was.
pub open spec fn spawned(old: &World, new: &World, x: i32, y: i32) -> bool {
    &&& new.wf()
    &&& new.len() == old.len() + 1
    &&& forall|j: int| 0 <= j < old.len() ==> World::slot_same(new, old, j)
    &&& new.alive@[old.len() as int]
    &&& new.positions@[old.len() as int] == Some(Position { x, y })
    &&& new.map == old.map
    &&& new.player_entity == old.player_entity
    &&& new.player_pos == old.player_pos
    &&& new.log == old.log
}

fn spawn(w: &mut World, c: Components) -> (e: Entity)
    requires
        old(w).wf(),
        old(w).len() < usize::MAX,
        c.position is Some,
    ensures
        e.id == old(w).len(),
        spawned(old(w), final(w), c.position.unwrap().x, c.position.unwrap().y),
        final(w).renderables@.last() == c.renderable,
        final(w).players@.last() == c.player,
        final(w).viewsheds@.last() == c.viewshed,
        final(w).monsters@.last() == c.monster,
        final(w).seen_players@.last() == c.seen_player,
        final(w).names@.last() == c.name,
        final(w).blocks_tiles@.last() == c.blocks_tile,
        final(w).combat_stats@.last() == c.combat_stats,
        final(w).items@.last() == c.item,
        final(w).consumables@.last() == c.consumable,
        final(w).provides_healing@.last() == c.provides_healing,
        final(w).ranged@.last() == c.ranged,
        final(w).inflicts_damage@.last() == c.inflicts_damage,
        final(w).aoe@.last() == c.aoe,
        final(w).paralyze@.last() == c.paralyze,
        final(w).equippable@.last() == c.equippable,
{
    w.create_entity(c)
}

/// Creates the player at `(x, y)`: 30 hit points, defence 2, power 5, sight 8.
pub fn player(w: &mut World, player_x: i32, player_y: i32) -> (e: Entity)
    requires
        old(w).wf(),
        old(w).len() < usize::MAX,
    ensures
        e.id == old(w).len(),
        spawned(old(w), final(w), player_x, player_y),
        final(w).players@.last() is Some,
        final(w).combat_stats@.last() == Some(CombatStats { max_hp: 30, hp: 30, defense: 2, power: 5 }),
        final(w).viewsheds@.last() matches Some(v) && v.visible_tiles@.len() == 0 && v.range == 8 && v.dirty,
        final(w).names@.last() matches Some(n) && n.name@ == "Player"@,
        final(w).monsters@.last() is None,
        final(w).items@.last() is None,
{
    let mut c = Components::empty();
    c.position = Some(Position { x: player_x, y: player_y });
    c.renderable = Some(Renderable { image: GameImage::Player, render_layer: 2 });
    c.player = Some(Player {});
    c.viewshed = Some(Viewshed { visible_tiles: Vec::new(), range: 8, dirty: true });
    c.combat_stats = Some(CombatStats { max_hp: 30, hp: 30, defense: 2, power: 5 });
    c.name = Some(Name { name: "Player".to_owned() });
    c.turn_heal = Some(DurationTurnHeal { time: 0 });
    proof { reveal_strlit("Player"); }
    spawn(w, c)
}

/// Creates a monster that hunts the player, at full health.
fn monster(w: &mut World, x: i32, y: i32, image: GameImage, name: String, hp: i32, defence: i32, power: i32) -> (e: Entity)
    requires
        old(w).wf(),
        old(w).len() < usize::MAX,
        0 <= hp,
    ensures
        e.id == old(w).len(),
        spawned(old(w), final(w), x, y),
        final(w).monsters@.last() is Some,
        final(w).blocks_tiles@.last() is Some,
        final(w).seen_players@.last() == Some(SeenPlayer { point: None }),
        final(w).combat_stats@.last() == Some(CombatStats { max_hp: hp, hp, defense: defence, power }),
        final(w).combat_stats@.last() matches Some(s) && 0 <= s.hp <= s.max_hp,
        final(w).viewsheds@.last() matches Some(v) && v.visible_tiles@.len() == 0 && v.range == 8 && v.dirty,
        final(w).names@.last() == Some(Name { name }),
        final(w).players@.last() is None,
        final(w).items@.last() is None,
{
    let mut c = Components::empty();
    c.position = Some(Position { x, y });
    c.renderable = Some(Renderable { image, render_layer: 2 });
    c.viewshed = Some(Viewshed { visible_tiles: Vec::new(), range: 8, dirty: true });
    c.monster = Some(Monster {});
    c.name = Some(Name { name });
    c.blocks_tile = Some(BlocksTile {});
    c.combat_stats = Some(CombatStats { max_hp: hp, hp, defense: defence, power });
    c.turn_heal = Some(DurationTurnHeal { time: 0 });
    c.seen_player = Some(SeenPlayer { point: None });
    spawn(w, c)
}

fn dragon(w: &mut World, x: i32, y: i32) -> (e: Entity)
    requires
        old(w).wf(),
        old(w).len() < usize::MAX,
    ensures
        e.id == old(w).len(),
        spawned(old(w), final(w), x, y),
        final(w).monsters@.last() is Some,
        final(w).combat_stats@.last() == Some(CombatStats { max_hp: 24, hp: 24, defense: 1, power: 5 }),
{
    monster(w, x, y, GameImage::Dragon, "Dragoso".to_owned(), 24, 1, 5)
}

fn kobold(w: &mut World, x: i32, y: i32) -> (e: Entity)
    requires
        old(w).wf(),
        old(w).len() < usize::MAX,
    ensures
        e.id == old(w).len(),
        spawned(old(w), final(w), x, y),
        final(w).monsters@.last() is Some,
        final(w).combat_stats@.last() == Some(CombatStats { max_hp: 16, hp: 16, defense: 1, power: 4 }),
{
    monster(w, x, y, GameImage::Kobold, "Kobolso".to_owned(), 16, 1, 4)
}

/// The components every item lying on the map starts with.
fn item_base(x: i32, y: i32, image: GameImage, name: String) -> (c: Components)
    ensures
        c.position == Some(Position { x, y }),
        c.renderable == Some(Renderable { image, render_layer: 1 }),
        c.name == Some(Name { name }),
        c.item is Some,
        c.player is None && c.monster is None && c.combat_stats is None && c.viewshed is None,
        c.consumable is None && c.provides_healing is None && c.ranged is None,
        c.inflicts_damage is None && c.aoe is None && c.paralyze is None && c.equippable is None,
{
    let mut c = Components::empty();
    c.position = Some(Position { x, y });
    c.renderable = Some(Renderable { image, render_layer: 1 });
    c.name = Some(Name { name });
    c.item = Some(Item {});
    c
}

fn iron_sword(w: &mut World, x: i32, y: i32) -> (e: Entity)
    requires
        old(w).wf(),
        old(w).len() < usize::MAX,
    ensures
        e.id == old(w).len(),
        spawned(old(w), final(w), x, y),
        final(w).items@.last() is Some,
        final(w).equippable@.last() == Some(Equippable { slot: EquipmentSlot::Melee }),
{
    let mut c = item_base(x, y, GameImage::Sword, "Iron Sword".to_owned());
    c.equippable = Some(Equippable { slot: EquipmentSlot::Melee });
    spawn(w, c)
}

fn iron_shield(w: &mut World, x: i32, y: i32) -> (e: Entity)
    requires
        old(w).wf(),
        old(w).len() < usize::MAX,
    ensures
        e.id == old(w).len(),
        spawned(old(w), final(w), x, y),
        final(w).items@.last() is Some,
        final(w).equippable@.last() == Some(Equippable { slot: EquipmentSlot::Shield }),
{
    let mut c = item_base(x, y, GameImage::Shield, "Iron Shield".to_owned());
    c.equippable = Some(Equippable { slot: EquipmentSlot::Shield });
    spawn(w, c)
}

fn health_potion(w: &mut World, x: i32, y: i32) -> (e: Entity)
    requires
        old(w).wf(),
        old(w).len() < usize::MAX,
    ensures
        e.id == old(w).len(),
        spawned(old(w), final(w), x, y),
        final(w).items@.last() is Some,
        final(w).consumables@.last() is Some,
        final(w).provides_healing@.last() == Some(ProvidesHealing { heal_amount: 8 }),
        final(w).ranged@.last() is None,
{
    let mut c = item_base(x, y, GameImage::Potion, "Heal Potion".to_owned());
    c.consumable = Some(Consumable {});
    c.provides_healing = Some(ProvidesHealing { heal_amount: 8 });
    c.potion = Some(Potion { heal_amount: 8 });
    spawn(w, c)
}

fn magic_missile_scroll(w: &mut World, x: i32, y: i32) -> (e: Entity)
    requires
        old(w).wf(),
        old(w).len() < usize::MAX,
    ensures
        e.id == old(w).len(),
        spawned(old(w), final(w), x, y),
        final(w).items@.last() is Some,
        final(w).consumables@.last() is Some,
        final(w).ranged@.last() == Some(Ranged { range: 6 }),
        final(w).inflicts_damage@.last() == Some(InflictsDamage { damage: 8 }),
        final(w).aoe@.last() is None,
{
    let mut c = item_base(x, y, GameImage::Scroll, "Magic Missile Scroll".to_owned());
    c.consumable = Some(Consumable {});
    c.ranged = Some(Ranged { range: 6 });
    c.inflicts_damage = Some(InflictsDamage { damage: 8 });
    spawn(w, c)
}

fn fireball_scroll(w: &mut World, x: i32, y: i32) -> (e: Entity)
    requires
        old(w).wf(),
        old(w).len() < usize::MAX,
    ensures
        e.id == old(w).len(),
        spawned(old(w), final(w), x, y),
        final(w).items@.last() is Some,
        final(w).consumables@.last() is Some,
        final(w).ranged@.last() == Some(Ranged { range: 6 }),
        final(w).inflicts_damage@.last() == Some(InflictsDamage { damage: 8 }),
        final(w).aoe@.last() == Some(AreaOfEffect { radius: 3 }),
{
    let mut c = item_base(x, y, GameImage::Scroll, "Fireball Scroll".to_owned());
    c.consumable = Some(Consumable {});
    c.ranged = Some(Ranged { range: 6 });
    c.inflicts_damage = Some(InflictsDamage { damage: 8 });
    c.aoe = Some(AreaOfEffect { radius: 3 });
    spawn(w, c)
}

/// Paralyses its target for three turns; it is not used up.
fn paralyze_scroll(w: &mut World, x: i32, y: i32) -> (e: Entity)
    requires
        old(w).wf(),
        old(w).len() < usize::MAX,
    ensures
        e.id == old(w).len(),
        spawned(old(w), final(w), x, y),
        final(w).items@.last() is Some,
        final(w).consumables@.last() is None,
        final(w).ranged@.last() == Some(Ranged { range: 6 }),
        final(w).paralyze@.last() == Some(Paralyze { turns: 3 }),
{
    let mut c = item_base(x, y, GameImage::Scroll, "Paralyze Scroll".to_owned());
    c.paralyze = Some(Paralyze { turns: 3 });
    c.ranged = Some(Ranged { range: 6 });
    spawn(w, c)
}

/// What a spawn point in a room can hold.
#[derive(Clone, Copy, Debug, PartialEq, Eq, Structural)]
pub enum SpawnKind {
    Kobold,
    Dragon,
    HealPotion,
    FireballScroll,
    ParalyzeScroll,
    MagicMissileScroll,
    IronSword,
    IronShield,
}

/// Relative odds of each spawn at `map_depth`; deeper levels hold more
/// dragons and more attack scrolls.
pub fn room_table(map_depth: i32) -> (r: Vec<(SpawnKind, i32)>)
    requires
        map_depth <= i32::MAX - 2,
    ensures
        r@ == seq![(SpawnKind::Kobold, 10i32), (SpawnKind::Dragon, (1 + map_depth) as i32),
            (SpawnKind::HealPotion, 5i32), (SpawnKind::FireballScroll, (2 + map_depth) as i32),
            (SpawnKind::ParalyzeScroll, (2 + map_depth) as i32), (SpawnKind::MagicMissileScroll, 4i32),
            (SpawnKind::IronSword, 3i32), (SpawnKind::IronShield, 3i32)],
{
    let r = vec![(SpawnKind::Kobold, 10), (SpawnKind::Dragon, 1 + map_depth), (SpawnKind::HealPotion, 5),
        (SpawnKind::FireballScroll, 2 + map_depth), (SpawnKind::ParalyzeScroll, 2 + map_depth),
        (SpawnKind::MagicMissileScroll, 4), (SpawnKind::IronSword, 3), (SpawnKind::IronShield, 3)];
    assert(r@ =~= seq![(SpawnKind::Kobold, 10i32), (SpawnKind::Dragon, (1 + map_depth) as i32),
            (SpawnKind::HealPotion, 5i32), (SpawnKind::FireballScroll, (2 + map_depth) as i32),
            (SpawnKind::ParalyzeScroll, (2 + map_depth) as i32), (SpawnKind::MagicMissileScroll, 4i32),
            (SpawnKind::IronSword, 3i32), (SpawnKind::IronShield, 3i32)]);
    r
}

pub open spec fn weight(e: (SpawnKind, i32)) -> int {
    if e.1 > 0 { e.1 as int } else { 0 }
}

pub open spec fn total_weight(t: Seq<(SpawnKind, i32)>) -> int
    decreases t.len(),
{
    if t.len() == 0 { 0 } else { total_weight(t.drop_last()) + weight(t.last()) }
}

/// The entry that a roll in `0 .. total_weight(t)` selects: entries take
/// consecutive ranges as wide as their weights, in table order.
pub open spec fn pick(t: Seq<(SpawnKind, i32)>, roll: int) -> Option<SpawnKind>
    decreases t.len(),
{
    if t.len() == 0 {
        None
    } else if roll < weight(t[0]) {
        Some(t[0].0)
    } else {
        pick(t.skip(1), roll - weight(t[0]))
    }
}

/// The entry of `table` selected by `roll`; see `pick`.
pub fn pick_weighted(table: &Vec<(SpawnKind, i32)>, roll: i64) -> (r: Option<SpawnKind>)
    ensures
        r == pick(table@, roll as int),
{
    let mut rest: i64 = roll;
    let mut i: usize = 0;
    assert(table@.skip(0) =~= table@);
    while i < table.len()
        invariant
            i <= table@.len(),
            pick(table@, roll as int) == pick(table@.skip(i as int), rest as int),
            rest <= roll,
            roll >= 0 ==> rest >= 0,
            roll < 0 ==> rest == roll,
        decreases table@.len() - i,
    {
        let (kind, wt) = table[i];
        let wgt: i64 = if wt > 0 { wt as i64 } else { 0 };
        assert(table@.skip(i as int)[0] == table@[i as int]);
        assert(table@.skip(i as int).skip(1) =~= table@.skip(i as int + 1));
        if rest < wgt {
            return Some(kind);
        }
        rest = rest - wgt;
        i = i + 1;
    }
    None
}

proof fn lemma_total_weight_bound(t: Seq<(SpawnKind, i32)>)
    ensures
        0 <= total_weight(t) <= t.len() * 0x8000_0000,
    decreases t.len(),
{
    if t.len() > 0 {
        lemma_total_weight_bound(t.drop_last());
    }
}

fn table_weight(table: &Vec<(SpawnKind, i32)>) -> (r: i64)
    requires
        table@.len() <= 8,
    ensures
        r == total_weight(table@),
{
    let mut total: i64 = 0;
    let mut i: usize = 0;
    while i < table.len()
        invariant
            i <= table@.len(),
            table@.len() <= 8,
            total == total_weight(table@.subrange(0, i as int)),
        decreases table@.len() - i,
    {
        proof { lemma_total_weight_bound(table@.subrange(0, i as int)); }
        assert(table@.subrange(0, i as int + 1).drop_last() =~= table@.subrange(0, i as int));
        let wt = table[i].1;
        if wt > 0 {
            total = total + wt as i64;
        }
        i = i + 1;
    }
    assert(table@.subrange(0, i as int) =~= table@);
    total
}

/// Draws an entry of `table` with probability proportional to its weight;
/// none when all weights are zero.
pub fn roll_table(table: &Vec<(SpawnKind, i32)>, rng: &mut RandomNumberGenerator) -> (r: Option<SpawnKind>)
    requires
        table@.len() <= 8,
        total_weight(table@) < i32::MAX,
    ensures
        total_weight(table@) > 0 ==> exists|k: int| 0 <= k < total_weight(table@) && r == pick(table@, k),
        total_weight(table@) <= 0 ==> r is None,
{
    let total = table_weight(table);
    if total <= 0 {
        return None;
    }
    let roll = roll_die(rng, total as i32) - 1;
    let r = pick_weighted(table, roll as i64);
    assert(0 <= roll < total_weight(table@) && r == pick(table@, roll as int));
    r
}

/// Creates the entity of `kind` at `(x, y)`.
pub fn spawn_kind(w: &mut World, kind: SpawnKind, x: i32, y: i32) -> (e: Entity)
    requires
        old(w).wf(),
        old(w).len() < usize::MAX,
    ensures
        e.id == old(w).len(),
        spawned(old(w), final(w), x, y),
{
    match kind {
        SpawnKind::Kobold => kobold(w, x, y),
        SpawnKind::Dragon => dragon(w, x, y),
        SpawnKind::HealPotion => health_potion(w, x, y),
        SpawnKind::FireballScroll => fireball_scroll(w, x, y),
        SpawnKind::ParalyzeScroll => paralyze_scroll(w, x, y),
        SpawnKind::MagicMissileScroll => magic_missile_scroll(w, x, y),
        SpawnKind::IronSword => iron_sword(w, x, y),
        SpawnKind::IronShield => iron_shield(w, x, y),
    }
}

/// Whether tile index `idx` lies inside the room's carved area.
pub open spec fn inside_room(room: Rect, idx: int) -> bool {
    room.x1 < idx % 64 <= room.x2 && room.y1 < idx / 64 <= room.y2
}

/// Populates a room: a random number of spawns (more on deeper levels), each
/// on a random free tile inside the room. A spawn that finds no free tile
/// in `SPAWN_TRIES` draws is skipped, and so is the whole room once the
/// entity arena is close to full. Every new entity stands inside the room,
/// no two on the same tile; nothing else changes.
pub fn spawn_room(w: &mut World, room: &Rect, map_depth: i32, rng: &mut RandomNumberGenerator)
    requires
        old(w).wf(),
        room_in_bounds(*room),
        1 <= map_depth <= MAX_DEPTH,
    ensures
        final(w).wf(),
        old(w).len() <= final(w).len() <= old(w).len() + map_depth + 3,
        forall|j: int| 0 <= j < old(w).len() ==> World::slot_same(final(w), old(w), j),
        final(w).map == old(w).map,
        final(w).player_entity == old(w).player_entity,
        final(w).player_pos == old(w).player_pos,
        final(w).log == old(w).log,
        forall|j: int| old(w).len() <= j < final(w).len() ==> (#[trigger] final(w).positions@[j] matches Some(p)
            && room.x1 < p.x <= room.x2 && room.y1 < p.y <= room.y2),
        forall|a: int, b: int| old(w).len() <= a < b < final(w).len() ==> #[trigger] final(w).positions@[a] != #[trigger] final(w).positions@[b],
{
    if w.alive.len() >= usize::MAX - 0x3000_0000 {
        return;
    }
    let spawn_table = room_table(map_depth);
    let ghost tw = total_weight(spawn_table@);
    assert(total_weight(spawn_table@) == 30 + 3 * map_depth) by {
        reveal_with_fuel(total_weight, 9);
    }
    let mut points: Vec<(usize, SpawnKind)> = Vec::new();
    let num_spawns: i64 = roll_die(rng, MAX_MONSTERS + 3) as i64 + (map_depth as i64 - 1) - 3;
    let mut k: i64 = 0;
    while k < num_spawns
        invariant
            room_in_bounds(*room),
            spawn_table@.len() == 8,
            total_weight(spawn_table@) < i32::MAX,
            0 <= k,
            points@.len() <= k,
            k <= (if num_spawns > 0 { num_spawns as int } else { 0 }),
            num_spawns <= map_depth + 3,
            forall|q: int| 0 <= q < points@.len() ==> inside_room(*room, (#[trigger] points@[q]).0 as int),
            forall|a: int, b: int| 0 <= a < b < points@.len() ==> (#[trigger] points@[a]).0 != (#[trigger] points@[b]).0,
        decreases num_spawns - k,
    {
        let mut added = false;
        let mut tries: i32 = 0;
        while !added && tries < SPAWN_TRIES
            invariant
                room_in_bounds(*room),
                spawn_table@.len() == 8,
                total_weight(spawn_table@) < i32::MAX,
                0 <= tries <= SPAWN_TRIES,
                points@.len() <= k + 1,
                !added ==> points@.len() <= k,
                forall|q: int| 0 <= q < points@.len() ==> inside_room(*room, (#[trigger] points@[q]).0 as int),
                forall|a: int, b: int| 0 <= a < b < points@.len() ==> (#[trigger] points@[a]).0 != (#[trigger] points@[b]).0,
            decreases SPAWN_TRIES - tries + (if added { 0int } else { 1int }),
        {
            let x = room.x1 + roll_die(rng, room.x2 - room.x1);
            let y = room.y1 + roll_die(rng, room.y2 - room.y1);
            let idx: usize = (y as usize) * MAPSIZE_WIDTH + x as usize;
            assert(idx % 64 == x && idx / 64 == y) by (nonlinear_arith)
                requires idx == y * 64 + x, 0 <= x < 64, 0 <= y;
            let mut taken = false;
            let mut q: usize = 0;
            while q < points.len()
                invariant
                    q <= points@.len(),
                    taken == exists|r: int| 0 <= r < q && (#[trigger] points@[r]).0 == idx,
                decreases points@.len() - q,
            {
                if points[q].0 == idx {
                    taken = true;
                }
                q = q + 1;
            }
            if !taken {
                match roll_table(&spawn_table, rng) {
                    Some(kind) => {
                        let ghost p0 = points@;
                        points.push((idx, kind));
                        assert forall|a: int, b: int| 0 <= a < b < points@.len() implies (#[trigger] points@[a]).0 != (#[trigger] points@[b]).0 by {
                            if b == p0.len() {
                                assert(points@[a] == p0[a]);
                            }
                        }
                    },
                    None => {},
                }
                added = true;
            } else {
                tries = tries + 1;
            }
        }
        k = k + 1;
    }

    let ghost w0 = *w;
    let mut q: usize = 0;
    while q < points.len()
        invariant
            q <= points@.len(),
            w.wf(),
            w.len() == w0.len() + q,
            w0.len() + 0x3000_0000 < usize::MAX,
            1 <= map_depth <= MAX_DEPTH,
            points@.len() <= map_depth + 3,
            forall|j: int| 0 <= j < w0.len() ==> World::slot_same(w, &w0, j),
            w.map == w0.map,
            w.player_entity == w0.player_entity,
            w.player_pos == w0.player_pos,
            w.log == w0.log,
            forall|r: int| 0 <= r < points@.len() ==> inside_room(*room, (#[trigger] points@[r]).0 as int),
            forall|a: int, b: int| 0 <= a < b < points@.len() ==> (#[trigger] points@[a]).0 != (#[trigger] points@[b]).0,
            forall|r: int| 0 <= r < q ==> #[trigger] w.positions@[w0.len() + r]
                == Some(Position { x: (points@[r].0 % 64) as i32, y: (points@[r].0 / 64) as i32 }),
        decreases points@.len() - q,
    {
        let (idx, kind) = points[q];
        let x = (idx % MAPSIZE_WIDTH) as i32;
        let y = (idx / MAPSIZE_WIDTH) as i32;
        let ghost before = *w;
        spawn_kind(w, kind, x, y);
        assert forall|r: int| 0 <= r < q + 1 implies #[trigger] w.positions@[w0.len() + r]
            == Some(Position { x: (points@[r].0 % 64) as i32, y: (points@[r].0 / 64) as i32 }) by {
            if r < q {
                assert(World::slot_same(w, &before, w0.len() + r));
            }
        }
        assert forall|j: int| 0 <= j < w0.len() implies World::slot_same(w, &w0, j) by {
            assert(World::slot_same(w, &before, j));
            assert(World::slot_same(&before, &w0, j));
        }
        q = q + 1;
    }
    assert forall|j: int| w0.len() <= j < w.len() implies (#[trigger] w.positions@[j] matches Some(p)
        && room.x1 < p.x <= room.x2 && room.y1 < p.y <= room.y2) by {
        assert(w.positions@[w0.len() + (j - w0.len())] == w.positions@[j]);
        assert(inside_room(*room, points@[j - w0.len()].0 as int));
    }
    assert forall|a: int, b: int| w0.len() <= a < b < w.len() implies #[trigger] w.positions@[a] != #[trigger] w.positions@[b] by {
        let ia = points@[a - w0.len()].0 as int;
        let ib = points@[b - w0.len()].0 as int;
        assert(w.positions@[w0.len() + (a - w0.len())] == w.positions@[a]);
        assert(w.positions@[w0.len() + (b - w0.len())] == w.positions@[b]);
        assert(ia != ib);
        assert(ia % 64 != ib % 64 || ia / 64 != ib / 64) by (nonlinear_arith)
            requires ia != ib, ia >= 0, ib >= 0;
    }
}

} // verus!
