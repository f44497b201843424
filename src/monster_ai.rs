use vstd::prelude::*;
use crate::component::{Entity, Paralyze, Position, SeenPlayer, Viewshed, WantsToMelee};
use crate::geom::{Point, dist_sq};
use crate::map::{GameMap, idx_of, in_bounds, exits_of, MAPSIZE_COUNT};
use crate::state::RunState;
use crate::world::World;

verus! {

/// Paralysis after one monster turn: one turn fewer, gone once none is left.
pub open spec fn tick(p: Option<Paralyze>) -> Option<Paralyze> {
    match p {
        Some(z) => if z.turns <= 1 { None } else { Some(Paralyze { turns: (z.turns - 1) as i32 }) },
        None => None,
    }
}

/// Close enough to strike: less than 1.5 tiles apart, i.e. adjacent.
pub open spec fn in_reach(a: Point, b: Point) -> bool {
    dist_sq(a, b) <= 2
}

/// A paralysis of `n` turns lets its bearer act again after exactly `n`
/// monster turns: for the first `n` ticks it is still present at the start
/// of the turn (so the turn is lost), and after them it is gone.
pub proof fn lemma_paralysis_duration(n: i32)
    requires
        n >= 1,
    ensures
        forall|k: int| 0 <= k < n ==> (#[trigger] ticks(Some(Paralyze { turns: n }), k)) is Some,
        ticks(Some(Paralyze { turns: n }), n as int) is None,
{
    assert forall|k: int| 0 <= k <= n implies #[trigger] ticks(Some(Paralyze { turns: n }), k)
        == (if k < n { Some(Paralyze { turns: (n - k) as i32 }) } else { None }) by {
        lemma_ticks(n, k);
    }
}

/// The paralysis left after `k` monster turns.
pub open spec fn ticks(p: Option<Paralyze>, k: int) -> Option<Paralyze>
    decreases k,
{
    if k <= 0 { p } else { tick(ticks(p, k - 1)) }
}

proof fn lemma_ticks(n: i32, k: int)
    requires
        n >= 1,
        0 <= k <= n,
    ensures
        ticks(Some(Paralyze { turns: n }), k) == (if k < n { Some(Paralyze { turns: (n - k) as i32 }) } else { None }),
    decreases k,
{
    if k > 0 {
        lemma_ticks(n, k - 1);
    }
}

/// Whether slot `i` is driven by the monster AI.
pub open spec fn is_ai(w: &World, i: int) -> bool {
    &&& w.monsters@[i] is Some
    &&& w.viewsheds@[i] is Some
    &&& w.seen_players@[i] is Some
    &&& w.positions@[i] is Some
}

pub open spec fn pos_point(p: Position) -> Point {
    Point { x: p.x, y: p.y }
}

/// The memory of slot `i` once it has looked for the player.
pub open spec fn sighted(w: &World, i: int) -> Option<Point> {
    if w.viewsheds@[i].unwrap().visible_tiles@.contains(w.player_pos) {
        Some(w.player_pos)
    } else {
        w.seen_players@[i].unwrap().point
    }
}

/// What `think` does for entity `e` in run state `runstate`, returning `r`.
pub open spec fn thought(old: &World, new: &World, runstate: RunState, e: Entity, r: Option<(Point, Point)>) -> bool {
    &&& new.wf()
    &&& {
    let i = e.id as int;
    if runstate == RunState::MonsterTurn && e.id < old.len() && is_ai(old, i) {
        let pos = pos_point(old.positions@[i].unwrap());
        let acts = old.paralyze@[i] is None;
        let seen = sighted(old, i);
        &&& *new == (World { paralyze: new.paralyze, seen_players: new.seen_players,
            wants_melee: new.wants_melee, ..*old })
        &&& new.paralyze@ == old.paralyze@.update(i, tick(old.paralyze@[i]))
        &&& if acts && seen is Some {
            let sp = seen.unwrap();
            if in_reach(pos, old.player_pos) {
                &&& r is None
                &&& new.wants_melee@ == old.wants_melee@.update(i, Some(WantsToMelee { target: old.player_entity }))
                &&& new.seen_players@ == old.seen_players@.update(i,
                    Some(SeenPlayer { point: if sp == pos { None } else { seen } }))
            } else {
                &&& r == Some((pos, sp))
                &&& new.wants_melee == old.wants_melee
                &&& new.seen_players@ == old.seen_players@.update(i, Some(SeenPlayer { point: seen }))
            }
        } else {
            &&& r is None
            &&& new.wants_melee == old.wants_melee
            &&& new.seen_players@ == old.seen_players@.update(i, Some(SeenPlayer { point: seen }))
        }
    } else {
        &&& r is None
        &&& *new == *old
    }
}
}

/// Whether `path` may be followed one step from `pos`: it starts on that
/// tile, and its second tile is one of that tile's exits.
pub open spec fn legal_step(m: &GameMap, pos: Point, path: Seq<usize>) -> bool {
    &&& path.len() > 1
    &&& path[1] < MAPSIZE_COUNT
    &&& in_bounds(pos.x as int, pos.y as int)
    &&& path[0] == idx_of(pos.x as int, pos.y as int)
    &&& exists|c: i32| #[trigger] exits_of(m, pos.x as int, pos.y as int).contains((path[1], c))
}

fn is_exit_of(m: &GameMap, pos: Point, to: usize) -> (r: bool)
    requires
        m.wf(),
        in_bounds(pos.x as int, pos.y as int),
    ensures
        r == exists|c: i32| #[trigger] exits_of(m, pos.x as int, pos.y as int).contains((to, c)),
{
    let here = m.xy_idx(pos.x, pos.y);
    assert(here as int % 64 == pos.x && here as int / 64 == pos.y) by (nonlinear_arith)
        requires here == pos.y * 64 + pos.x, 0 <= pos.x < 64, 0 <= pos.y;
    let exits = m.get_available_exits(here);
    let mut i: usize = 0;
    while i < exits.len()
        invariant
            i <= exits@.len(),
            exits@ == exits_of(m, pos.x as int, pos.y as int),
            forall|k: int| 0 <= k < i ==> exits@[k].0 != to,
        decreases exits@.len() - i,
    {
        if exits[i].0 == to {
            assert(exits@.contains((to, exits@[i as int].1)));
            return true;
        }
        i = i + 1;
    }
    assert forall|c: i32| !#[trigger] exits@.contains((to, c)) by {
        if exits@.contains((to, c)) {
            let k = choose|k: int| 0 <= k < exits@.len() && exits@[k] == (to, c);
        }
    }
    false
}

/// Monster decisions.
pub struct MonsterAI {}

fn sees(tiles: &Vec<Point>, p: Point) -> (r: bool)
    ensures
        r == tiles@.contains(p),
{
    let mut i: usize = 0;
    while i < tiles.len()
        invariant
            i <= tiles@.len(),
            forall|k: int| 0 <= k < i ==> tiles@[k] != p,
        decreases tiles@.len() - i,
    {
        if tiles[i] == p {
            assert(tiles@[i as int] == p);
            return true;
        }
        i = i + 1;
    }
    false
}

impl MonsterAI {
    /// The first part of monster `e`'s turn, done only while the run state is
    /// `MonsterTurn`. Paralysis ticks down, and a paralysed monster does
    /// nothing else; seeing the player updates the monster's memory. A
    /// monster that remembers the player strikes if the player is adjacent,
    /// and otherwise asks for a path from its tile to the remembered one: the
    /// result is that request, to be answered through `follow_path`.
    pub fn think(&mut self, w: &mut World, runstate: RunState, e: Entity) -> (r: Option<(Point, Point)>)
        requires
            old(w).wf(),
        ensures
            thought(old(w), final(w), runstate, e, r),
    {
        if runstate != RunState::MonsterTurn {
            return None;
        }
        let i = e.id;
        if i >= w.alive.len() {
            return None;
        }
        if w.monsters[i].is_none() || w.viewsheds[i].is_none() || w.seen_players[i].is_none() || w.positions[i].is_none() {
            return None;
        }
        let pos = w.positions[i].unwrap().to_point();
        let mut can_act = true;
        if let Some(z) = w.paralyze[i] {
            if z.turns <= 1 {
                w.paralyze.set(i, None);
            } else {
                w.paralyze.set(i, Some(Paralyze { turns: z.turns - 1 }));
            }
            can_act = false;
        }
        assert(w.paralyze@ =~= old(w).paralyze@.update(i as int, tick(old(w).paralyze@[i as int])));
        let visible = match &w.viewsheds[i] {
            Some(v) => sees(&v.visible_tiles, w.player_pos),
            None => false,
        };
        let mut seen = w.seen_players[i].unwrap().point;
        if visible {
            seen = Some(w.player_pos);
        }
        w.seen_players.set(i, Some(SeenPlayer { point: seen }));
        if can_act {
            if let Some(sp) = seen {
                let pp = w.player_pos;
                let dxe: i64 = pos.x as i64 - pp.x as i64;
                let dye: i64 = pos.y as i64 - pp.y as i64;
                let near = dxe >= -1 && dxe <= 1 && dye >= -1 && dye <= 1;
                proof {
                    let dx = pos.x - pp.x;
                    let dy = pos.y - pp.y;
                    if !near {
                        assert(dx * dx + dy * dy > 2) by (nonlinear_arith)
                            requires !(-1 <= dx <= 1 && -1 <= dy <= 1);
                    } else {
                        assert(dx * dx + dy * dy <= 2) by (nonlinear_arith)
                            requires -1 <= dx <= 1, -1 <= dy <= 1;
                    }
                }
                if near {
                    w.wants_melee.set(i, Some(WantsToMelee { target: w.player_entity }));
                    if sp == pos {
                        w.seen_players.set(i, Some(SeenPlayer { point: None }));
                    }
                    assert(w.seen_players@ =~= old(w).seen_players@.update(i as int,
                        Some(SeenPlayer { point: if sp == pos { None } else { seen } })));
                    return None;
                } else {
                    return Some((pos, sp));
                }
            }
        }
        None
    }
}

impl MonsterAI {
    /// The second part of a monster's turn, given the path (tile indices,
    /// starting at its own tile) found for the request `think` returned. When
    /// the path starts on the monster's tile and its second tile is an exit
    /// of that tile (`legal_step`), the monster steps onto it,
    /// the blocked flags of the tile left and the tile entered are updated at
    /// once, and its view is marked for recomputation. A monster standing on
    /// the tile it remembers forgets it.
    pub fn follow_path(&mut self, w: &mut World, e: Entity, path: &Vec<usize>)
        requires
            old(w).wf(),
        ensures
            final(w).wf(),
            ({
                let i = e.id as int;
                if e.id < old(w).len() && is_ai(old(w), i) && old(w).seen_players@[i].unwrap().point is Some {
                    let pos = pos_point(old(w).positions@[i].unwrap());
                    let sp = old(w).seen_players@[i].unwrap().point.unwrap();
                    let moved = legal_step(&old(w).map, pos, path@);
                    let np = if moved { Point { x: (path@[1] % 64) as i32, y: (path@[1] / 64) as i32 } } else { pos };
                    &&& *final(w) == (World { positions: final(w).positions, viewsheds: final(w).viewsheds,
                        seen_players: final(w).seen_players, map: final(w).map, ..*old(w) })
                    &&& final(w).seen_players@ == old(w).seen_players@.update(i,
                        Some(SeenPlayer { point: if sp == np { None } else { Some(sp) } }))
                    &&& if moved {
                        &&& final(w).map == (GameMap { blocked: final(w).map.blocked, ..old(w).map })
                        &&& final(w).map.blocked@ == old(w).map.blocked@.update(idx_of(pos.x as int, pos.y as int), false)
                            .update(path@[1] as int, true)
                        &&& final(w).positions@ == old(w).positions@.update(i, Some(Position { x: np.x, y: np.y }))
                        &&& final(w).viewsheds@.len() == old(w).viewsheds@.len()
                        &&& final(w).viewsheds@[i] matches Some(v) && v.dirty
                            && v.visible_tiles == old(w).viewsheds@[i].unwrap().visible_tiles
                            && v.range == old(w).viewsheds@[i].unwrap().range
                        &&& forall|j: int| 0 <= j < old(w).len() && j != i ==> #[trigger] final(w).viewsheds@[j] == old(w).viewsheds@[j]
                    } else {
                        &&& final(w).map == old(w).map
                        &&& final(w).positions == old(w).positions
                        &&& final(w).viewsheds == old(w).viewsheds
                    }
                } else {
                    *final(w) == *old(w)
                }
            }),
    {
        let i = e.id;
        if i >= w.alive.len() {
            return;
        }
        if w.monsters[i].is_none() || w.viewsheds[i].is_none() || w.seen_players[i].is_none() || w.positions[i].is_none() {
            return;
        }
        let sp = match w.seen_players[i].unwrap().point {
            Some(p) => p,
            None => { return; },
        };
        let mut pos = w.positions[i].unwrap().to_point();
        if path.len() > 1 && path[1] < MAPSIZE_COUNT && 0 <= pos.x && pos.x < 64 && 0 <= pos.y && pos.y < 64
            && path[0] == w.map.xy_idx(pos.x, pos.y) && is_exit_of(&w.map, pos, path[1]) {
            let step = path[1];
            let here = w.map.xy_idx(pos.x, pos.y);
            w.map.blocked.set(here, false);
            pos = Point { x: (step % 64) as i32, y: (step / 64) as i32 };
            w.positions.set(i, Some(Position { x: pos.x, y: pos.y }));
            w.map.blocked.set(step, true);
            let mut slot: Option<Viewshed> = None;
            std::mem::swap(&mut slot, &mut w.viewsheds[i]);
            let mut v = slot.unwrap();
            v.dirty = true;
            w.viewsheds.set(i, Some(v));
        }
        if sp == pos {
            w.seen_players.set(i, Some(SeenPlayer { point: None }));
        } else {
            w.seen_players.set(i, Some(SeenPlayer { point: Some(sp) }));
        }
    }
}

/// A monster paralysed for three turns loses exactly three monster turns:
/// in each it neither strikes nor moves, nothing else about it or the map
/// changes but its memory, and its paralysis counts down to two, one, gone.
/// On the fourth turn it acts as a monster that was never paralysed:
/// striking an adjacent player it remembers, or asking for a path.
pub proof fn lemma_three_turn_paralysis(w0: World, w1: World, w2: World, w3: World, w4: World, e: Entity,
    r1: Option<(Point, Point)>, r2: Option<(Point, Point)>, r3: Option<(Point, Point)>, r4: Option<(Point, Point)>)
    requires
        w0.wf(),
        e.id < w0.len(),
        is_ai(&w0, e.id as int),
        w0.paralyze@[e.id as int] == Some(Paralyze { turns: 3 }),
        thought(&w0, &w1, RunState::MonsterTurn, e, r1),
        thought(&w1, &w2, RunState::MonsterTurn, e, r2),
        thought(&w2, &w3, RunState::MonsterTurn, e, r3),
        thought(&w3, &w4, RunState::MonsterTurn, e, r4),
    ensures
        r1 is None && r2 is None && r3 is None,
        w1.wants_melee == w0.wants_melee && w2.wants_melee == w0.wants_melee && w3.wants_melee == w0.wants_melee,
        w1.positions == w0.positions && w2.positions == w0.positions && w3.positions == w0.positions,
        w1.viewsheds == w0.viewsheds && w2.viewsheds == w0.viewsheds && w3.viewsheds == w0.viewsheds,
        w1.map == w0.map && w2.map == w0.map && w3.map == w0.map,
        w1.paralyze@[e.id as int] == Some(Paralyze { turns: 2 }),
        w2.paralyze@[e.id as int] == Some(Paralyze { turns: 1 }),
        w3.paralyze@[e.id as int] is None,
        ({
            let i = e.id as int;
            let pos = pos_point(w3.positions@[i].unwrap());
            let seen = sighted(&w3, i);
            seen is Some ==> if in_reach(pos, w3.player_pos) {
                r4 is None && w4.wants_melee@[i] == Some(WantsToMelee { target: w3.player_entity })
            } else {
                r4 == Some((pos, seen.unwrap()))
            }
        }),
{
    let i = e.id as int;
    assert(is_ai(&w1, i));
    assert(is_ai(&w2, i));
    assert(is_ai(&w3, i));
}

} // verus!
