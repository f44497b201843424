use vstd::prelude::*;
use crate::component::{Entity, AreaOfEffect, BlocksTile, CombatStats, Consumable, DropItem, DurationTurnHeal, Equippable, InBackpack, InflictsDamage, Item, Monster, Name, Paralyze, Player, Position, Potion, ProvidesHealing, Ranged, Renderable, SeenPlayer, SufferDamage, Viewshed, WantsToMelee, WantsToPickupItem, WantsToUseItem};
use crate::gamelog::GameLog;
use crate::geom::Point;
use crate::map::GameMap;

verus! {

/// The components of one entity, as handed to `World::create_entity`.
#[derive(Debug)]
pub struct Components {
    pub position: Option<Position>,
    pub renderable: Option<Renderable>,
    pub player: Option<Player>,
    pub viewshed: Option<Viewshed>,
    pub monster: Option<Monster>,
    pub seen_player: Option<SeenPlayer>,
    pub name: Option<Name>,
    pub blocks_tile: Option<BlocksTile>,
    pub combat_stats: Option<CombatStats>,
    pub turn_heal: Option<DurationTurnHeal>,
    pub wants_melee: Option<WantsToMelee>,
    pub item: Option<Item>,
    pub consumable: Option<Consumable>,
    pub potion: Option<Potion>,
    pub in_backpack: Option<InBackpack>,
    pub wants_pickup: Option<WantsToPickupItem>,
    pub suffer_damage: Option<SufferDamage>,
    pub wants_use: Option<WantsToUseItem>,
    pub drop_item: Option<DropItem>,
    pub provides_healing: Option<ProvidesHealing>,
    pub ranged: Option<Ranged>,
    pub inflicts_damage: Option<InflictsDamage>,
    pub aoe: Option<AreaOfEffect>,
    pub paralyze: Option<Paralyze>,
    pub equippable: Option<Equippable>,
}

impl Components {
    pub fn empty() -> (r: Components)
        ensures
            r.position is None,
            r.renderable is None,
            r.player is None,
            r.viewshed is None,
            r.monster is None,
            r.seen_player is None,
            r.name is None,
            r.blocks_tile is None,
            r.combat_stats is None,
            r.turn_heal is None,
            r.wants_melee is None,
            r.item is None,
            r.consumable is None,
            r.potion is None,
            r.in_backpack is None,
            r.wants_pickup is None,
            r.suffer_damage is None,
            r.wants_use is None,
            r.drop_item is None,
            r.provides_healing is None,
            r.ranged is None,
            r.inflicts_damage is None,
            r.aoe is None,
            r.paralyze is None,
            r.equippable is None,
    {
        Components {
            position: None,
            renderable: None,
            player: None,
            viewshed: None,
            monster: None,
            seen_player: None,
            name: None,
            blocks_tile: None,
            combat_stats: None,
            turn_heal: None,
            wants_melee: None,
            item: None,
            consumable: None,
            potion: None,
            in_backpack: None,
            wants_pickup: None,
            suffer_damage: None,
            wants_use: None,
            drop_item: None,
            provides_healing: None,
            ranged: None,
            inflicts_damage: None,
            aoe: None,
            paralyze: None,
            equippable: None,
        }
    }
}

/// The entity-component store and the resources shared by every system.
/// Entity `e` owns slot `e.id` of every storage. Deleting an entity never
/// frees its slot for another; loading a game replaces the whole arena.
#[derive(Debug)]
pub struct World {
    pub alive: Vec<bool>,
    pub positions: Vec<Option<Position>>,
    pub renderables: Vec<Option<Renderable>>,
    pub players: Vec<Option<Player>>,
    pub viewsheds: Vec<Option<Viewshed>>,
    pub monsters: Vec<Option<Monster>>,
    pub seen_players: Vec<Option<SeenPlayer>>,
    pub names: Vec<Option<Name>>,
    pub blocks_tiles: Vec<Option<BlocksTile>>,
    pub combat_stats: Vec<Option<CombatStats>>,
    pub turn_heals: Vec<Option<DurationTurnHeal>>,
    pub wants_melee: Vec<Option<WantsToMelee>>,
    pub items: Vec<Option<Item>>,
    pub consumables: Vec<Option<Consumable>>,
    pub potions: Vec<Option<Potion>>,
    pub in_backpacks: Vec<Option<InBackpack>>,
    pub wants_pickup: Vec<Option<WantsToPickupItem>>,
    pub suffer_damage: Vec<Option<SufferDamage>>,
    pub wants_use: Vec<Option<WantsToUseItem>>,
    pub drop_items: Vec<Option<DropItem>>,
    pub provides_healing: Vec<Option<ProvidesHealing>>,
    pub ranged: Vec<Option<Ranged>>,
    pub inflicts_damage: Vec<Option<InflictsDamage>>,
    pub aoe: Vec<Option<AreaOfEffect>>,
    pub paralyze: Vec<Option<Paralyze>>,
    pub equippable: Vec<Option<Equippable>>,
    pub map: GameMap,
    /// The player's entity.
    pub player_entity: Entity,
    /// Where the player stands.
    pub player_pos: Point,
    pub log: GameLog,
}

impl World {
    pub open spec fn len(&self) -> nat {
        self.alive@.len()
    }

    pub open spec fn wf(&self) -> bool {
        &&& self.positions@.len() == self.alive@.len()
        &&& self.renderables@.len() == self.alive@.len()
        &&& self.players@.len() == self.alive@.len()
        &&& self.viewsheds@.len() == self.alive@.len()
        &&& self.monsters@.len() == self.alive@.len()
        &&& self.seen_players@.len() == self.alive@.len()
        &&& self.names@.len() == self.alive@.len()
        &&& self.blocks_tiles@.len() == self.alive@.len()
        &&& self.combat_stats@.len() == self.alive@.len()
        &&& self.turn_heals@.len() == self.alive@.len()
        &&& self.wants_melee@.len() == self.alive@.len()
        &&& self.items@.len() == self.alive@.len()
        &&& self.consumables@.len() == self.alive@.len()
        &&& self.potions@.len() == self.alive@.len()
        &&& self.in_backpacks@.len() == self.alive@.len()
        &&& self.wants_pickup@.len() == self.alive@.len()
        &&& self.suffer_damage@.len() == self.alive@.len()
        &&& self.wants_use@.len() == self.alive@.len()
        &&& self.drop_items@.len() == self.alive@.len()
        &&& self.provides_healing@.len() == self.alive@.len()
        &&& self.ranged@.len() == self.alive@.len()
        &&& self.inflicts_damage@.len() == self.alive@.len()
        &&& self.aoe@.len() == self.alive@.len()
        &&& self.paralyze@.len() == self.alive@.len()
        &&& self.equippable@.len() == self.alive@.len()
        &&& self.map.wf()
    }

    /// Slot `i` holds the same entity in both worlds.
    pub open spec fn slot_same(a: &World, b: &World, i: int) -> bool {
        &&& a.alive@[i] == b.alive@[i]
        &&& a.positions@[i] == b.positions@[i]
        &&& a.renderables@[i] == b.renderables@[i]
        &&& a.players@[i] == b.players@[i]
        &&& a.viewsheds@[i] == b.viewsheds@[i]
        &&& a.monsters@[i] == b.monsters@[i]
        &&& a.seen_players@[i] == b.seen_players@[i]
        &&& a.names@[i] == b.names@[i]
        &&& a.blocks_tiles@[i] == b.blocks_tiles@[i]
        &&& a.combat_stats@[i] == b.combat_stats@[i]
        &&& a.turn_heals@[i] == b.turn_heals@[i]
        &&& a.wants_melee@[i] == b.wants_melee@[i]
        &&& a.items@[i] == b.items@[i]
        &&& a.consumables@[i] == b.consumables@[i]
        &&& a.potions@[i] == b.potions@[i]
        &&& a.in_backpacks@[i] == b.in_backpacks@[i]
        &&& a.wants_pickup@[i] == b.wants_pickup@[i]
        &&& a.suffer_damage@[i] == b.suffer_damage@[i]
        &&& a.wants_use@[i] == b.wants_use@[i]
        &&& a.drop_items@[i] == b.drop_items@[i]
        &&& a.provides_healing@[i] == b.provides_healing@[i]
        &&& a.ranged@[i] == b.ranged@[i]
        &&& a.inflicts_damage@[i] == b.inflicts_damage@[i]
        &&& a.aoe@[i] == b.aoe@[i]
        &&& a.paralyze@[i] == b.paralyze@[i]
        &&& a.equippable@[i] == b.equippable@[i]
    }

    /// Slot `i` holds the same entity in both worlds, use intents aside.
    pub open spec fn slot_same_but_use(a: &World, b: &World, i: int) -> bool {
        &&& a.alive@[i] == b.alive@[i]
        &&& a.positions@[i] == b.positions@[i]
        &&& a.renderables@[i] == b.renderables@[i]
        &&& a.players@[i] == b.players@[i]
        &&& a.viewsheds@[i] == b.viewsheds@[i]
        &&& a.monsters@[i] == b.monsters@[i]
        &&& a.seen_players@[i] == b.seen_players@[i]
        &&& a.names@[i] == b.names@[i]
        &&& a.blocks_tiles@[i] == b.blocks_tiles@[i]
        &&& a.combat_stats@[i] == b.combat_stats@[i]
        &&& a.turn_heals@[i] == b.turn_heals@[i]
        &&& a.wants_melee@[i] == b.wants_melee@[i]
        &&& a.items@[i] == b.items@[i]
        &&& a.consumables@[i] == b.consumables@[i]
        &&& a.potions@[i] == b.potions@[i]
        &&& a.in_backpacks@[i] == b.in_backpacks@[i]
        &&& a.wants_pickup@[i] == b.wants_pickup@[i]
        &&& a.suffer_damage@[i] == b.suffer_damage@[i]
        &&& a.drop_items@[i] == b.drop_items@[i]
        &&& a.provides_healing@[i] == b.provides_healing@[i]
        &&& a.ranged@[i] == b.ranged@[i]
        &&& a.inflicts_damage@[i] == b.inflicts_damage@[i]
        &&& a.aoe@[i] == b.aoe@[i]
        &&& a.paralyze@[i] == b.paralyze@[i]
        &&& a.equippable@[i] == b.equippable@[i]
    }

    /// Slot `i` holds a deleted entity.
    pub open spec fn slot_cleared(a: &World, i: int) -> bool {
        &&& !a.alive@[i]
        &&& a.positions@[i] is None
        &&& a.renderables@[i] is None
        &&& a.players@[i] is None
        &&& a.viewsheds@[i] is None
        &&& a.monsters@[i] is None
        &&& a.seen_players@[i] is None
        &&& a.names@[i] is None
        &&& a.blocks_tiles@[i] is None
        &&& a.combat_stats@[i] is None
        &&& a.turn_heals@[i] is None
        &&& a.wants_melee@[i] is None
        &&& a.items@[i] is None
        &&& a.consumables@[i] is None
        &&& a.potions@[i] is None
        &&& a.in_backpacks@[i] is None
        &&& a.wants_pickup@[i] is None
        &&& a.suffer_damage@[i] is None
        &&& a.wants_use@[i] is None
        &&& a.drop_items@[i] is None
        &&& a.provides_healing@[i] is None
        &&& a.ranged@[i] is None
        &&& a.inflicts_damage@[i] is None
        &&& a.aoe@[i] is None
        &&& a.paralyze@[i] is None
        &&& a.equippable@[i] is None
    }

    pub open spec fn live(&self, e: Entity) -> bool {
        e.id < self.alive@.len() && self.alive@[e.id as int]
    }

    /// An empty world around the given map.
    pub fn new(map: GameMap) -> (r: World)
        requires
            map.wf(),
        ensures
            r.wf(),
            r.len() == 0,
            r.map == map,
            r.log.entries@.len() == 1,
            r.log.entries@[0] is Welcome,
    {
        World {
            alive: Vec::new(),
            positions: Vec::new(),
            renderables: Vec::new(),
            players: Vec::new(),
            viewsheds: Vec::new(),
            monsters: Vec::new(),
            seen_players: Vec::new(),
            names: Vec::new(),
            blocks_tiles: Vec::new(),
            combat_stats: Vec::new(),
            turn_heals: Vec::new(),
            wants_melee: Vec::new(),
            items: Vec::new(),
            consumables: Vec::new(),
            potions: Vec::new(),
            in_backpacks: Vec::new(),
            wants_pickup: Vec::new(),
            suffer_damage: Vec::new(),
            wants_use: Vec::new(),
            drop_items: Vec::new(),
            provides_healing: Vec::new(),
            ranged: Vec::new(),
            inflicts_damage: Vec::new(),
            aoe: Vec::new(),
            paralyze: Vec::new(),
            equippable: Vec::new(),
            map,
            player_entity: Entity { id: 0 },
            player_pos: Point { x: 0, y: 0 },
            log: GameLog::new(),
        }
    }

    pub fn is_alive(&self, e: Entity) -> (r: bool)
        requires
            self.wf(),
        ensures
            r == self.live(e),
    {
        e.id < self.alive.len() && self.alive[e.id]
    }

    /// Adds an entity with the given components; it gets the next slot.
    pub fn create_entity(&mut self, c: Components) -> (e: Entity)
        requires
            old(self).wf(),
            old(self).len() < usize::MAX,
        ensures
            final(self).wf(),
            e.id == old(self).len(),
            final(self).alive@ == old(self).alive@.push(true),
            final(self).positions@ == old(self).positions@.push(c.position),
            final(self).renderables@ == old(self).renderables@.push(c.renderable),
            final(self).players@ == old(self).players@.push(c.player),
            final(self).viewsheds@ == old(self).viewsheds@.push(c.viewshed),
            final(self).monsters@ == old(self).monsters@.push(c.monster),
            final(self).seen_players@ == old(self).seen_players@.push(c.seen_player),
            final(self).names@ == old(self).names@.push(c.name),
            final(self).blocks_tiles@ == old(self).blocks_tiles@.push(c.blocks_tile),
            final(self).combat_stats@ == old(self).combat_stats@.push(c.combat_stats),
            final(self).turn_heals@ == old(self).turn_heals@.push(c.turn_heal),
            final(self).wants_melee@ == old(self).wants_melee@.push(c.wants_melee),
            final(self).items@ == old(self).items@.push(c.item),
            final(self).consumables@ == old(self).consumables@.push(c.consumable),
            final(self).potions@ == old(self).potions@.push(c.potion),
            final(self).in_backpacks@ == old(self).in_backpacks@.push(c.in_backpack),
            final(self).wants_pickup@ == old(self).wants_pickup@.push(c.wants_pickup),
            final(self).suffer_damage@ == old(self).suffer_damage@.push(c.suffer_damage),
            final(self).wants_use@ == old(self).wants_use@.push(c.wants_use),
            final(self).drop_items@ == old(self).drop_items@.push(c.drop_item),
            final(self).provides_healing@ == old(self).provides_healing@.push(c.provides_healing),
            final(self).ranged@ == old(self).ranged@.push(c.ranged),
            final(self).inflicts_damage@ == old(self).inflicts_damage@.push(c.inflicts_damage),
            final(self).aoe@ == old(self).aoe@.push(c.aoe),
            final(self).paralyze@ == old(self).paralyze@.push(c.paralyze),
            final(self).equippable@ == old(self).equippable@.push(c.equippable),
            final(self).map == old(self).map,
            final(self).player_entity == old(self).player_entity,
            final(self).player_pos == old(self).player_pos,
            final(self).log == old(self).log,
    {
        let id = self.alive.len();
        self.alive.push(true);
        self.positions.push(c.position);
        self.renderables.push(c.renderable);
        self.players.push(c.player);
        self.viewsheds.push(c.viewshed);
        self.monsters.push(c.monster);
        self.seen_players.push(c.seen_player);
        self.names.push(c.name);
        self.blocks_tiles.push(c.blocks_tile);
        self.combat_stats.push(c.combat_stats);
        self.turn_heals.push(c.turn_heal);
        self.wants_melee.push(c.wants_melee);
        self.items.push(c.item);
        self.consumables.push(c.consumable);
        self.potions.push(c.potion);
        self.in_backpacks.push(c.in_backpack);
        self.wants_pickup.push(c.wants_pickup);
        self.suffer_damage.push(c.suffer_damage);
        self.wants_use.push(c.wants_use);
        self.drop_items.push(c.drop_item);
        self.provides_healing.push(c.provides_healing);
        self.ranged.push(c.ranged);
        self.inflicts_damage.push(c.inflicts_damage);
        self.aoe.push(c.aoe);
        self.paralyze.push(c.paralyze);
        self.equippable.push(c.equippable);
        Entity { id }
    }

    /// Removes an entity and all its components. Handles to it stay dead.
    pub fn delete_entity(&mut self, e: Entity)
        requires
            old(self).wf(),
        ensures
            final(self).wf(),
            final(self).map == old(self).map,
            final(self).player_entity == old(self).player_entity,
            final(self).player_pos == old(self).player_pos,
            final(self).log == old(self).log,
            final(self).len() == old(self).len(),
            forall|j: int| 0 <= j < old(self).len() && j != e.id ==> World::slot_same(final(self), old(self), j),
            e.id < old(self).len() ==> World::slot_cleared(final(self), e.id as int),
    {
        if e.id < self.alive.len() {
            let i = e.id;
            self.alive.set(i, false);
            self.positions.set(i, None);
            self.renderables.set(i, None);
            self.players.set(i, None);
            self.viewsheds.set(i, None);
            self.monsters.set(i, None);
            self.seen_players.set(i, None);
            self.names.set(i, None);
            self.blocks_tiles.set(i, None);
            self.combat_stats.set(i, None);
            self.turn_heals.set(i, None);
            self.wants_melee.set(i, None);
            self.items.set(i, None);
            self.consumables.set(i, None);
            self.potions.set(i, None);
            self.in_backpacks.set(i, None);
            self.wants_pickup.set(i, None);
            self.suffer_damage.set(i, None);
            self.wants_use.set(i, None);
            self.drop_items.set(i, None);
            self.provides_healing.set(i, None);
            self.ranged.set(i, None);
            self.inflicts_damage.set(i, None);
            self.aoe.set(i, None);
            self.paralyze.set(i, None);
            self.equippable.set(i, None);
        }
    }
}

} // verus!
