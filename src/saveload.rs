use vstd::prelude::*;
use bracket_lib::prelude::RandomNumberGenerator;
use crate::component::{Entity, Name, SufferDamage, Viewshed};
use crate::gamelog::GameLog;
use crate::geom::Point;
use crate::map::{GameMap, MAPSIZE_COUNT};
use crate::state::RunState;
use crate::world::{Components, World};

verus! {

/// The saved form of the current map; its occupancy index is not saved.
#[derive(Debug)]
pub struct SerializationHelper {
    pub map: GameMap,
}

/// A saved game: the map, and for every entity slot in order whether it is
/// live and its components. Entity handles inside components stay valid.
#[derive(Debug)]
pub struct Snapshot {
    pub helper: SerializationHelper,
    pub alive: Vec<bool>,
    pub entities: Vec<Components>,
}

pub fn copy_vec<T: Copy>(v: &Vec<T>) -> (r: Vec<T>)
    ensures
        r@ == v@,
{
    let mut out: Vec<T> = Vec::new();
    let mut i: usize = 0;
    while i < v.len()
        invariant
            i <= v@.len(),
            out@ == v@.subrange(0, i as int),
        decreases v@.len() - i,
    {
        out.push(v[i]);
        assert(out@ =~= v@.subrange(0, i as int + 1));
        i = i + 1;
    }
    assert(v@.subrange(0, i as int) =~= v@);
    out
}

pub open spec fn same_viewshed(a: Option<Viewshed>, b: Option<Viewshed>) -> bool {
    match (a, b) {
        (Some(x), Some(y)) => x.visible_tiles@ == y.visible_tiles@ && x.range == y.range && x.dirty == y.dirty,
        (None, None) => true,
        _ => false,
    }
}

pub open spec fn same_damage(a: Option<SufferDamage>, b: Option<SufferDamage>) -> bool {
    match (a, b) {
        (Some(x), Some(y)) => x.amount@ == y.amount@,
        (None, None) => true,
        _ => false,
    }
}

/// `c` holds the components of slot `i`.
pub open spec fn holds_slot(c: Components, w: &World, i: int) -> bool {
    &&& c.position == w.positions@[i]
    &&& c.renderable == w.renderables@[i]
    &&& c.player == w.players@[i]
    &&& same_viewshed(c.viewshed, w.viewsheds@[i])
    &&& c.monster == w.monsters@[i]
    &&& c.seen_player == w.seen_players@[i]
    &&& c.name == w.names@[i]
    &&& c.blocks_tile == w.blocks_tiles@[i]
    &&& c.combat_stats == w.combat_stats@[i]
    &&& c.turn_heal == w.turn_heals@[i]
    &&& c.wants_melee == w.wants_melee@[i]
    &&& c.item == w.items@[i]
    &&& c.consumable == w.consumables@[i]
    &&& c.potion == w.potions@[i]
    &&& c.in_backpack == w.in_backpacks@[i]
    &&& c.wants_pickup == w.wants_pickup@[i]
    &&& same_damage(c.suffer_damage, w.suffer_damage@[i])
    &&& c.wants_use == w.wants_use@[i]
    &&& c.drop_item == w.drop_items@[i]
    &&& c.provides_healing == w.provides_healing@[i]
    &&& c.ranged == w.ranged@[i]
    &&& c.inflicts_damage == w.inflicts_damage@[i]
    &&& c.aoe == w.aoe@[i]
    &&& c.paralyze == w.paralyze@[i]
    &&& c.equippable == w.equippable@[i]
}

/// The map as saved: everything but the occupancy index, which is empty.
pub open spec fn saved_map(m: &GameMap, from: &GameMap) -> bool {
    &&& m.wf()
    &&& m.tiles@ == from.tiles@
    &&& m.revealed_tiles@ == from.revealed_tiles@
    &&& m.visible_tiles@ == from.visible_tiles@
    &&& m.blocked@ == from.blocked@
    &&& m.rooms@ == from.rooms@
    &&& m.width == from.width
    &&& m.height == from.height
    &&& m.depth == from.depth
    &&& forall|t: int| 0 <= t < MAPSIZE_COUNT ==> (#[trigger] m.tile_content@[t])@.len() == 0
}

/// `s` is a snapshot of `w`.
pub open spec fn saved(w: &World, s: &Snapshot) -> bool {
    &&& saved_map(&s.helper.map, &w.map)
    &&& s.alive@ == w.alive@
    &&& s.entities@.len() == w.len()
    &&& forall|q: int| 0 <= q < s.entities@.len() ==> holds_slot(#[trigger] s.entities@[q], w, q)
}

fn copy_components(w: &World, i: usize) -> (c: Components)
    requires
        w.wf(),
        i < w.len(),
    ensures
        holds_slot(c, w, i as int),
{
    let viewshed = match &w.viewsheds[i] {
        Some(v) => Some(Viewshed { visible_tiles: copy_vec(&v.visible_tiles), range: v.range, dirty: v.dirty }),
        None => None,
    };
    let name = match &w.names[i] {
        Some(n) => Some(Name { name: n.name.clone() }),
        None => None,
    };
    let suffer_damage = match &w.suffer_damage[i] {
        Some(d) => Some(SufferDamage { amount: copy_vec(&d.amount) }),
        None => None,
    };
    Components {
        position: w.positions[i],
        renderable: w.renderables[i],
        player: w.players[i],
        viewshed,
        monster: w.monsters[i],
        seen_player: w.seen_players[i],
        name,
        blocks_tile: w.blocks_tiles[i],
        combat_stats: w.combat_stats[i],
        turn_heal: w.turn_heals[i],
        wants_melee: w.wants_melee[i],
        item: w.items[i],
        consumable: w.consumables[i],
        potion: w.potions[i],
        in_backpack: w.in_backpacks[i],
        wants_pickup: w.wants_pickup[i],
        suffer_damage,
        wants_use: w.wants_use[i],
        drop_item: w.drop_items[i],
        provides_healing: w.provides_healing[i],
        ranged: w.ranged[i],
        inflicts_damage: w.inflicts_damage[i],
        aoe: w.aoe[i],
        paralyze: w.paralyze[i],
        equippable: w.equippable[i],
    }
}

fn copy_map(m: &GameMap) -> (r: GameMap)
    requires
        m.wf(),
    ensures
        saved_map(&r, m),
{
    let blank = GameMap::new_filled(m.depth);
    GameMap {
        tiles: copy_vec(&m.tiles),
        revealed_tiles: copy_vec(&m.revealed_tiles),
        visible_tiles: copy_vec(&m.visible_tiles),
        blocked: copy_vec(&m.blocked),
        rooms: copy_vec(&m.rooms),
        width: m.width,
        height: m.height,
        depth: m.depth,
        tile_content: blank.tile_content,
    }
}

/// Takes a snapshot of the world for saving.
pub fn save_game(w: &World) -> (s: Snapshot)
    requires
        w.wf(),
    ensures
        saved(w, &s),
{
    let mut entities: Vec<Components> = Vec::new();
    let n = w.alive.len();
    let mut i: usize = 0;
    while i < n
        invariant
            w.wf(),
            n == w.len(),
            i <= n,
            entities@.len() == i,
            forall|q: int| 0 <= q < i ==> holds_slot(#[trigger] entities@[q], w, q),
        decreases n - i,
    {
        let c = copy_components(w, i);
        entities.push(c);
        assert(entities@[i as int] == c);
        i = i + 1;
    }
    Snapshot { helper: SerializationHelper { map: copy_map(&w.map) }, alive: copy_vec(&w.alive), entities }
}

/// The last live slot below `k` that is the player and has a position.
pub open spec fn last_player(alive: Seq<bool>, s: Seq<Components>, k: int) -> Option<int>
    decreases k,
{
    if k <= 0 {
        None
    } else if alive[k - 1] && s[k - 1].player is Some && s[k - 1].position is Some {
        Some(k - 1)
    } else {
        last_player(alive, s, k - 1)
    }
}

/// Whether a snapshot has the shape loading needs.
pub open spec fn snapshot_ok(s: &Snapshot) -> bool {
    s.helper.map.wf() && s.alive@.len() == s.entities@.len()
}

/// `w` is what loading `s` over `prev` gives.
pub open spec fn loaded(prev: &World, s: &Snapshot, w: &World) -> bool {
    &&& w.wf()
    &&& w.len() == s.entities@.len()
    &&& w.alive@ == s.alive@
    &&& forall|q: int| 0 <= q < s.entities@.len() && s.alive@[q] ==> holds_slot(#[trigger] s.entities@[q], w, q)
    &&& forall|q: int| 0 <= q < s.entities@.len() && !s.alive@[q] ==> #[trigger] World::slot_cleared(w, q)
    &&& w.map.rooms == s.helper.map.rooms
    &&& w.map.depth == s.helper.map.depth
    &&& w.map.revealed_tiles == s.helper.map.revealed_tiles
    &&& w.map.visible_tiles == s.helper.map.visible_tiles
    &&& w.map.blocked == s.helper.map.blocked
    &&& forall|t: int| 0 <= t < MAPSIZE_COUNT ==> (#[trigger] w.map.tiles@[t]).tiletype == s.helper.map.tiles@[t].tiletype
    &&& forall|t: int| 0 <= t < MAPSIZE_COUNT ==> (#[trigger] w.map.tile_content@[t])@.len() == 0
    &&& w.log == prev.log
    &&& match last_player(s.alive@, s.entities@, s.entities@.len() as int) {
        Some(q) => w.player_entity == (Entity { id: q as usize })
            && w.player_pos == (Point { x: s.entities@[q].position.unwrap().x, y: s.entities@[q].position.unwrap().y }),
        None => w.player_entity == prev.player_entity && w.player_pos == prev.player_pos,
    }
}

/// Whether a snapshot read back from storage can be loaded.
pub fn snapshot_ok_to_load(s: &Snapshot) -> (r: bool)
    ensures
        r == snapshot_ok(s),
{
    let m = &s.helper.map;
    m.width == 64 && m.height == 64 && m.tiles.len() == MAPSIZE_COUNT && m.revealed_tiles.len() == MAPSIZE_COUNT
        && m.visible_tiles.len() == MAPSIZE_COUNT && m.blocked.len() == MAPSIZE_COUNT && m.tile_content.len() == MAPSIZE_COUNT
        && s.alive.len() == s.entities.len()
}

/// Replaces the world by a saved one: every slot is recreated in order (dead
/// ones stay dead), the occupancy index starts empty, tile shading is drawn
/// afresh, and the player is found again (the last live entity that is the
/// player and has a position). The message log is kept. Play resumes
/// awaiting input.
pub fn load_game(w: &mut World, snap: Snapshot, rng: &mut RandomNumberGenerator) -> (r: RunState)
    requires
        old(w).wf(),
        snapshot_ok(&snap),
    ensures
        r == RunState::AwaitingInput,
        loaded(old(w), &snap, final(w)),
{
    let ghost orig = snap.entities@;
    let ghost live = snap.alive@;
    let Snapshot { helper, alive, entities } = snap;
    let mut entities = entities;
    let mut map = helper.map;
    map.clear_content_index();
    map.set_background(rng);
    let mut log = GameLog { entries: Vec::new() };
    std::mem::swap(&mut log, &mut w.log);
    let mut nw = World::new(map);
    nw.log = log;
    nw.player_entity = w.player_entity;
    nw.player_pos = w.player_pos;
    let n = entities.len();
    let mut q: usize = 0;
    while q < n
        invariant
            n == orig.len(),
            live.len() == n,
            alive@ == live,
            entities@.len() == n,
            q <= n,
            nw.wf(),
            nw.len() == q,
            forall|k: int| q <= k < n ==> #[trigger] entities@[k] == orig[k],
            forall|k: int| 0 <= k < q ==> #[trigger] nw.alive@[k] == live[k],
            forall|k: int| 0 <= k < q && live[k] ==> holds_slot(#[trigger] orig[k], &nw, k),
            forall|k: int| 0 <= k < q && !live[k] ==> #[trigger] World::slot_cleared(&nw, k),
            nw.map == map,
            nw.log == old(w).log,
            match last_player(live, orig, q as int) {
                Some(f) => nw.player_entity == (Entity { id: f as usize })
                    && nw.player_pos == (Point { x: orig[f].position.unwrap().x, y: orig[f].position.unwrap().y }),
                None => nw.player_entity == old(w).player_entity && nw.player_pos == old(w).player_pos,
            },
        decreases n - q,
    {
        let mut c = Components::empty();
        std::mem::swap(&mut c, &mut entities[q]);
        let is_player = c.player.is_some();
        let pos = c.position;
        let ghost before = nw;
        let ghost cq = c;
        assert(cq == orig[q as int]);
        let e = nw.create_entity(c);
        let ghost created = nw;
        assert(holds_slot(cq, &created, q as int));
        if alive[q] {
            if is_player {
                if let Some(p) = pos {
                    nw.player_entity = e;
                    nw.player_pos = Point { x: p.x, y: p.y };
                }
            }
        } else {
            nw.delete_entity(e);
        }
        assert forall|k: int| 0 <= k < q + 1 && live[k] implies holds_slot(#[trigger] orig[k], &nw, k) by {
            if k < q {
                assert(holds_slot(orig[k], &before, k));
                assert(World::slot_same(&created, &before, k));
                if !live[q as int] {
                    assert(World::slot_same(&nw, &created, k));
                }
            }
        }
        assert forall|k: int| 0 <= k < q + 1 && !live[k] implies #[trigger] World::slot_cleared(&nw, k) by {
            if k < q {
                assert(World::slot_cleared(&before, k));
                if !live[q as int] {
                    assert(World::slot_same(&nw, &created, k));
                }
            }
        }
        assert forall|k: int| 0 <= k < q + 1 implies #[trigger] nw.alive@[k] == live[k] by {
            if k < q && !live[q as int] {
                assert(World::slot_same(&nw, &created, k));
            }
        }
        q = q + 1;
    }
    assert(nw.alive@ =~= live);
    *w = nw;
    RunState::AwaitingInput
}

proof fn lemma_last_player_unique(alive: Seq<bool>, s: Seq<Components>, q: int, k: int)
    requires
        0 <= q < k <= s.len(),
        alive.len() == s.len(),
        alive[q] && s[q].player is Some && s[q].position is Some,
        forall|j: int| 0 <= j < s.len() && j != q ==> (#[trigger] s[j]).player is None,
    ensures
        last_player(alive, s, k) == Some(q),
    decreases k,
{
    if k > q + 1 {
        lemma_last_player_unique(alive, s, q, k - 1);
    }
}

/// Saving a game and loading the snapshot gives back the same tile layout,
/// depth and rooms, and the same player: its hit points and its position.
/// (The world is taken to have one player entity, standing where the
/// player's position resource says.)
pub proof fn lemma_save_then_load(w: &World, s: &Snapshot, prev: &World, w2: &World)
    requires
        w.wf(),
        saved(w, s),
        loaded(prev, s, w2),
        s.entities@.len() <= usize::MAX,
        w.player_entity.id < w.len(),
        w.alive@[w.player_entity.id as int],
        w.players@[w.player_entity.id as int] is Some,
        w.positions@[w.player_entity.id as int] == Some(crate::component::Position { x: w.player_pos.x, y: w.player_pos.y }),
        forall|i: int| 0 <= i < w.len() && i != w.player_entity.id ==> (#[trigger] w.players@[i]) is None,
    ensures
        forall|t: int| 0 <= t < MAPSIZE_COUNT ==> (#[trigger] w2.map.tiles@[t]).tiletype == w.map.tiles@[t].tiletype,
        w2.map.depth == w.map.depth,
        w2.map.rooms@ == w.map.rooms@,
        w2.player_pos == w.player_pos,
        w2.player_entity.id < w2.len(),
        w2.combat_stats@[w2.player_entity.id as int] == w.combat_stats@[w.player_entity.id as int],
        w2.positions@[w2.player_entity.id as int] == w.positions@[w.player_entity.id as int],
{
    let p = w.player_entity.id as int;
    assert(holds_slot(s.entities@[p], w, p));
    assert forall|j: int| 0 <= j < s.entities@.len() && j != p implies (#[trigger] s.entities@[j]).player is None by {
        assert(holds_slot(s.entities@[j], w, j));
    }
    lemma_last_player_unique(s.alive@, s.entities@, p, s.entities@.len() as int);
    assert(holds_slot(s.entities@[p], w2, p));
    assert(w2.player_entity.id == p);
}


proof fn lemma_last_player_found(alive: Seq<bool>, s: Seq<Components>, k: int)
    requires
        0 <= k <= s.len(),
        alive.len() == s.len(),
    ensures
        last_player(alive, s, k) matches Some(q) ==> 0 <= q < k && alive[q] && s[q].player is Some && s[q].position is Some,
    decreases k,
{
    if k > 0 {
        lemma_last_player_found(alive, s, k - 1);
    }
}

/// Loading a snapshot of `w` brings back the level (tile types, depth,
/// rooms) and, as the player, the last live entity of `w` that is the
/// player and has a position: with the same hit points and position, and
/// the player-position resource set to that position.
pub proof fn lemma_load_restores_player(w: &World, s: &Snapshot, prev: &World, w2: &World)
    requires
        w.wf(),
        saved(w, s),
        loaded(prev, s, w2),
        s.entities@.len() <= usize::MAX,
    ensures
        forall|t: int| 0 <= t < MAPSIZE_COUNT ==> (#[trigger] w2.map.tiles@[t]).tiletype == w.map.tiles@[t].tiletype,
        w2.map.depth == w.map.depth,
        w2.map.rooms@ == w.map.rooms@,
        last_player(w.alive@, s.entities@, w.len() as int) matches Some(q) ==> {
            &&& w2.player_entity.id == q
            &&& w.alive@[q] && w.players@[q] is Some
            &&& w2.combat_stats@[q] == w.combat_stats@[q]
            &&& w2.positions@[q] == w.positions@[q]
            &&& w.positions@[q] == Some(crate::component::Position { x: w2.player_pos.x, y: w2.player_pos.y })
        },
{
    lemma_last_player_found(s.alive@, s.entities@, s.entities@.len() as int);
    if let Some(q) = last_player(w.alive@, s.entities@, w.len() as int) {
        assert(holds_slot(s.entities@[q], w, q));
        assert(holds_slot(s.entities@[q], w2, q));
    }
}

} // verus!
