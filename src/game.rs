use vstd::prelude::*;
use bracket_lib::prelude::RandomNumberGenerator;
use crate::component::{Entity, Position, Viewshed};
use crate::gamelog::{GameLog, LogEntry};
use crate::geom::{Point, center_of};
use crate::map::{GameMap, generated_map, room_in_bounds, MAX_ROUNDS};
use crate::geom::Rect;
use crate::component::Position as Pos;
use crate::spawner::{player, spawn_room, MAX_DEPTH};
use crate::state::{MainMenuState, RunState};
use crate::world::World;

verus! {

/// Whether slot `i` goes along to the next level: the player, and what the
/// player carries.
pub open spec fn kept_on_level_change(w: &World, i: int) -> bool {
    w.players@[i] is Some || (w.in_backpacks@[i] matches Some(b) && b.owner == w.player_entity)
}

/// Whether `pos` lies inside one of `rooms[lo..hi]`.
pub open spec fn in_some_room(rooms: Seq<Rect>, pos: Option<Pos>, lo: int, hi: int) -> bool {
    exists|k: int| lo <= k < hi && (pos matches Some(p) && (#[trigger] rooms[k]).x1 < p.x <= rooms[k].x2 && rooms[k].y1 < p.y <= rooms[k].y2)
}

/// Whether a level change deletes slot `i`.
pub open spec fn removed_on_level_change(w: &World, i: int) -> bool {
    w.alive@[i] && !kept_on_level_change(w, i)
}

/// The live entities left behind by a level change, among slots below `k`.
pub open spec fn left_behind(w: &World, k: int) -> Seq<Entity>
    decreases k,
{
    if k <= 0 {
        Seq::empty()
    } else if w.alive@[k - 1] && !kept_on_level_change(w, k - 1) {
        left_behind(w, k - 1).push(Entity { id: (k - 1) as usize })
    } else {
        left_behind(w, k - 1)
    }
}

proof fn lemma_left_behind(w: &World, k: int)
    requires
        0 <= k <= w.len(),
        k <= usize::MAX,
    ensures
        forall|q: int| 0 <= q < left_behind(w, k).len() ==> (#[trigger] left_behind(w, k)[q]).id < k
            && w.alive@[left_behind(w, k)[q].id as int] && !kept_on_level_change(w, left_behind(w, k)[q].id as int),
        forall|i: int| 0 <= i < k && w.alive@[i] && !kept_on_level_change(w, i)
            ==> exists|q: int| 0 <= q < left_behind(w, k).len() && (#[trigger] left_behind(w, k)[q]).id == i,
    decreases k,
{
    if k > 0 {
        lemma_left_behind(w, k - 1);
        let prev = left_behind(w, k - 1);
        let cur = left_behind(w, k);
        assert forall|i: int| 0 <= i < k && w.alive@[i] && !kept_on_level_change(w, i)
            implies exists|q: int| 0 <= q < cur.len() && (#[trigger] cur[q]).id == i by {
            if i < k - 1 {
                let q = choose|q: int| 0 <= q < prev.len() && (#[trigger] prev[q]).id == i;
                assert(cur[q] == prev[q]);
            } else {
                assert(cur == prev.push(Entity { id: (k - 1) as usize }));
                assert(cur[cur.len() - 1].id == i);
            }
        }
    }
}

pub struct State {}

impl State {
    /// The entities a level change deletes, in slot order.
    pub fn entities_to_remove_on_level_change(&self, w: &World) -> (r: Vec<Entity>)
        requires
            w.wf(),
        ensures
            r@ == left_behind(w, w.len() as int),
    {
        let mut out: Vec<Entity> = Vec::new();
        let n = w.alive.len();
        let mut i: usize = 0;
        while i < n
            invariant
                w.wf(),
                n == w.len(),
                i <= n,
                out@ == left_behind(w, i as int),
            decreases n - i,
        {
            let keep = w.players[i].is_some() || match w.in_backpacks[i] {
                Some(b) => b.owner == w.player_entity,
                None => false,
            };
            if w.alive[i] && !keep {
                out.push(Entity { id: i });
            }
            i = i + 1;
        }
        out
    }

    /// Goes one level down: everything but the player and what the player
    /// carries is deleted, a new level one deeper is generated and stocked,
    /// and the player is placed at the centre of its first room with a view
    /// to recompute.
    pub fn goto_next_level(&self, w: &mut World, rng: &mut RandomNumberGenerator)
        requires
            old(w).wf(),
            0 <= old(w).map.depth < MAX_DEPTH,
        ensures
            final(w).wf(),
            final(w).len() >= old(w).len(),
            generated_map(&final(w).map, (old(w).map.depth + 1) as i32),
            final(w).player_entity == old(w).player_entity,
            final(w).player_pos == (Point { x: center_of(final(w).map.rooms@[0]).0 as i32, y: center_of(final(w).map.rooms@[0]).1 as i32 }),
            final(w).log.entries@ == old(w).log.entries@.push(LogEntry::NextLevel),
            forall|j: int| old(w).len() <= j < final(w).len()
                ==> in_some_room(final(w).map.rooms@, #[trigger] final(w).positions@[j], 1, final(w).map.rooms@.len() as int),
            forall|i: int| 0 <= i < old(w).len() && old(w).alive@[i] && !kept_on_level_change(old(w), i)
                ==> World::slot_cleared(final(w), i),
            forall|i: int| 0 <= i < old(w).len() && i != old(w).player_entity.id
                && !removed_on_level_change(old(w), i) ==> World::slot_same(final(w), old(w), i),
            ({
                let p = old(w).player_entity.id as int;
                p < old(w).len() && !removed_on_level_change(old(w), p) ==> {
                    &&& final(w).alive@[p] == old(w).alive@[p]
                    &&& final(w).positions@[p] == (if old(w).positions@[p] is Some {
                        Some(Position { x: final(w).player_pos.x, y: final(w).player_pos.y })
                    } else {
                        None
                    })
                    &&& old(w).viewsheds@[p] is Some ==> (final(w).viewsheds@[p] matches Some(v) && v.dirty)
                }
            }),
    {
        let to_delete = self.entities_to_remove_on_level_change(w);
        let n = w.alive.len();
        proof { lemma_left_behind(w, n as int); }
        let mut j: usize = 0;
        while j < to_delete.len()
            invariant
                w.wf(),
                w.len() == n,
                n == old(w).len(),
                j <= to_delete@.len(),
                w.map == old(w).map,
                w.player_entity == old(w).player_entity,
                w.player_pos == old(w).player_pos,
                w.log == old(w).log,
                to_delete@ == left_behind(old(w), n as int),
                forall|q: int| 0 <= q < to_delete@.len() ==> (#[trigger] to_delete@[q]).id < n
                    && old(w).alive@[to_delete@[q].id as int] && !kept_on_level_change(old(w), to_delete@[q].id as int),
                forall|q: int| 0 <= q < j ==> World::slot_cleared(w, (#[trigger] to_delete@[q]).id as int),
                forall|i: int| #![trigger World::slot_same(w, old(w), i)] 0 <= i < n && !removed_on_level_change(old(w), i) ==> World::slot_same(w, old(w), i),
            decreases to_delete@.len() - j,
        {
            let ghost before = *w;
            w.delete_entity(to_delete[j]);
            assert forall|q: int| 0 <= q < j + 1 implies World::slot_cleared(w, (#[trigger] to_delete@[q]).id as int) by {
                if q < j && to_delete@[q].id != to_delete@[j as int].id {
                    assert(World::slot_same(w, &before, to_delete@[q].id as int));
                }
            }
            assert forall|i: int| 0 <= i < n && !removed_on_level_change(old(w), i)
                implies World::slot_same(w, old(w), i) by {
                assert(i != to_delete@[j as int].id);
                assert(World::slot_same(w, &before, i));
                assert(World::slot_same(&before, old(w), i));
            }
            j = j + 1;
        }
        assert forall|i: int| 0 <= i < old(w).len() && old(w).alive@[i] && !kept_on_level_change(old(w), i)
            implies World::slot_cleared(w, i) by {
            let q = choose|q: int| 0 <= q < to_delete@.len() && (#[trigger] to_delete@[q]).id == i;
        }
        let ghost w1 = *w;

        let depth = w.map.depth + 1;
        let (map, _rounds) = GameMap::new_map_rooms_and_corridors(depth, rng);
        w.map = map;
        let ghost w2 = *w;
        let rooms = w.map.rooms.len();
        let mut r: usize = 1;
        while r < rooms
            invariant
                1 <= r <= rooms,
                rooms == w.map.rooms@.len(),
                rooms <= 3 * MAX_ROUNDS,
                1 <= depth <= MAX_DEPTH,
                w.wf(),
                w.map == w2.map,
                generated_map(&w.map, depth),
                w.len() >= n,
                forall|j: int| n <= j < w.len() ==> in_some_room(w.map.rooms@, #[trigger] w.positions@[j], 1, r as int),
                w.player_entity == old(w).player_entity,
                w.player_pos == old(w).player_pos,
                w.log == old(w).log,
                forall|i: int| #![trigger World::slot_same(w, &w1, i)] 0 <= i < n ==> World::slot_same(w, &w1, i),
            decreases rooms - r,
        {
            let room = w.map.rooms[r];
            assert(room_in_bounds(w.map.rooms@[r as int]));
            let ghost before = *w;
            spawn_room(w, &room, depth, rng);
            assert forall|j: int| n <= j < w.len() implies in_some_room(w.map.rooms@, #[trigger] w.positions@[j], 1, r as int + 1) by {
                if j < before.len() {
                    assert(World::slot_same(w, &before, j));
                    assert(in_some_room(w.map.rooms@, before.positions@[j], 1, r as int));
                } else {
                    assert(w.positions@[j] matches Some(q) && room.x1 < q.x <= room.x2 && room.y1 < q.y <= room.y2);
                }
            }
            assert forall|i: int| 0 <= i < n implies World::slot_same(w, &w1, i) by {
                assert(World::slot_same(w, &before, i));
                assert(World::slot_same(&before, &w1, i));
            }
            r = r + 1;
        }
        let ghost w_exit = *w;
        assert(room_in_bounds(w.map.rooms@[0]));
        let (px, py) = w.map.rooms[0].center();
        w.player_pos = Point { x: px, y: py };
        let p = w.player_entity.id;
        let ghost w3 = *w;
        proof {
            if p < n && !removed_on_level_change(old(w), p as int) {
                assert(World::slot_same(&w_exit, &w1, p as int));
                assert(World::slot_same(&w1, old(w), p as int));
            }
        }
        if p < n {
            if w.positions[p].is_some() {
                w.positions.set(p, Some(Position { x: px, y: py }));
            }
            if w.viewsheds[p].is_some() {
                let mut slot: Option<Viewshed> = None;
                std::mem::swap(&mut slot, &mut w.viewsheds[p]);
                let mut v = slot.unwrap();
                v.dirty = true;
                w.viewsheds.set(p, Some(v));
            }
        }
        w.log.entries.push(GameLog::goto_next_level_log());
        assert forall|j: int| n <= j < w.len() implies in_some_room(w.map.rooms@, #[trigger] w.positions@[j], 1, w.map.rooms@.len() as int) by {
            assert(w.positions@[j] == w_exit.positions@[j]);
            assert(in_some_room(w_exit.map.rooms@, w_exit.positions@[j], 1, w_exit.map.rooms@.len() as int));
        }
        assert forall|i: int| 0 <= i < old(w).len() && i != old(w).player_entity.id
            && !removed_on_level_change(old(w), i) implies World::slot_same(w, old(w), i) by {
            assert(World::slot_same(&w_exit, &w1, i));
            assert(World::slot_same(&w3, &w1, i));
            assert(World::slot_same(&w1, old(w), i));
        }
        assert forall|i: int| 0 <= i < old(w).len() && old(w).alive@[i] && !kept_on_level_change(old(w), i)
            implies World::slot_cleared(w, i) by {
            assert(World::slot_cleared(&w1, i));
            assert(World::slot_same(&w_exit, &w1, i));
            assert(World::slot_same(&w3, &w1, i));
            assert(old(w).players@[i] is None);
        }
    }
}

/// The outside work a turn-machine step asks for.
#[derive(Clone, Copy, Debug, PartialEq, Eq, Structural)]
pub enum TurnAction {
    Nothing,
    /// Run every system once, in the fixed order.
    RunSystems,
    GotoNextLevel,
    /// The end-of-turn mortality sweep.
    DeleteTheDead,
    LoadGame,
    Quit,
}

/// One step of the turn machine: the next run state and the work to do
/// before it applies (systems run while the current state is in force).
pub open spec fn next_step(rs: RunState) -> (RunState, TurnAction) {
    match rs {
        RunState::MainMenu { state } => match state {
            MainMenuState::NewGame => (RunState::PreRun, TurnAction::Nothing),
            MainMenuState::Quit => (rs, TurnAction::Quit),
            MainMenuState::LoadGame => (RunState::AwaitingInput, TurnAction::LoadGame),
            MainMenuState::Waiting => (rs, TurnAction::Nothing),
        },
        RunState::PreRun => (RunState::AwaitingInput, TurnAction::RunSystems),
        RunState::AwaitingInput => (rs, TurnAction::Nothing),
        RunState::NextLevel => (RunState::PreRun, TurnAction::GotoNextLevel),
        RunState::PlayerTurn => (RunState::SaveGame, TurnAction::RunSystems),
        RunState::SaveGame => (RunState::MonsterTurn, TurnAction::Nothing),
        RunState::MonsterTurn => (RunState::EndTurn, TurnAction::RunSystems),
        RunState::EndTurn => (RunState::AwaitingInput, TurnAction::DeleteTheDead),
        RunState::ShowInventory => (rs, TurnAction::Nothing),
        RunState::ShowDropItem => (rs, TurnAction::Nothing),
        RunState::ShowTargeting { range, item } => (rs, TurnAction::Nothing),
    }
}

/// The states the machine passes through after `k` steps from `rs`.
pub open spec fn steps(rs: RunState, k: nat) -> RunState
    decreases k,
{
    if k == 0 { rs } else { next_step(steps(rs, (k - 1) as nat)).0 }
}

/// A player's turn runs the systems, passes the save point, lets the
/// monsters act, sweeps the dead, and then waits for input again.
pub proof fn lemma_turn_cycle()
    ensures
        next_step(RunState::PlayerTurn) == (RunState::SaveGame, TurnAction::RunSystems),
        next_step(RunState::SaveGame) == (RunState::MonsterTurn, TurnAction::Nothing),
        next_step(RunState::MonsterTurn) == (RunState::EndTurn, TurnAction::RunSystems),
        next_step(RunState::EndTurn) == (RunState::AwaitingInput, TurnAction::DeleteTheDead),
        steps(RunState::PlayerTurn, 4) == RunState::AwaitingInput,
        next_step(RunState::AwaitingInput).0 == RunState::AwaitingInput,
{
    reveal_with_fuel(steps, 5);
}

impl State {
    /// One step of the turn machine; see `next_step`.
    pub fn update(&self, runstate: RunState) -> (r: (RunState, TurnAction))
        ensures
            r == next_step(runstate),
    {
        match runstate {
            RunState::MainMenu { state } => match state {
                MainMenuState::NewGame => (RunState::PreRun, TurnAction::Nothing),
                MainMenuState::Quit => (runstate, TurnAction::Quit),
                MainMenuState::LoadGame => (RunState::AwaitingInput, TurnAction::LoadGame),
                MainMenuState::Waiting => (runstate, TurnAction::Nothing),
            },
            RunState::PreRun => (RunState::AwaitingInput, TurnAction::RunSystems),
            RunState::AwaitingInput => (runstate, TurnAction::Nothing),
            RunState::NextLevel => (RunState::PreRun, TurnAction::GotoNextLevel),
            RunState::PlayerTurn => (RunState::SaveGame, TurnAction::RunSystems),
            RunState::SaveGame => (RunState::MonsterTurn, TurnAction::Nothing),
            RunState::MonsterTurn => (RunState::EndTurn, TurnAction::RunSystems),
            RunState::EndTurn => (RunState::AwaitingInput, TurnAction::DeleteTheDead),
            RunState::ShowInventory => (runstate, TurnAction::Nothing),
            RunState::ShowDropItem => (runstate, TurnAction::Nothing),
            RunState::ShowTargeting { range, item } => (runstate, TurnAction::Nothing),
        }
    }

    /// Aborts targeting without touching the world.
    pub fn cancel_targeting(&self, runstate: RunState) -> (r: RunState)
        ensures
            r == (if runstate is ShowTargeting { RunState::AwaitingInput } else { runstate }),
    {
        match runstate {
            RunState::ShowTargeting { range, item } => RunState::AwaitingInput,
            _ => runstate,
        }
    }

    /// A fresh game: a first-level map, the player at the centre of its first
    /// room, and every other room stocked.
    pub fn new_game(&self, rng: &mut RandomNumberGenerator) -> (w: World)
        ensures
            w.wf(),
            generated_map(&w.map, 1),
            w.player_entity.id == 0,
            w.len() >= 1,
            w.players@[0] is Some,
            w.player_pos == (Point { x: center_of(w.map.rooms@[0]).0 as i32, y: center_of(w.map.rooms@[0]).1 as i32 }),
            w.positions@[0] == Some(Position { x: w.player_pos.x, y: w.player_pos.y }),
            w.log.entries@.len() == 1,
    {
        let (map, _rounds) = GameMap::new_map_rooms_and_corridors(1, rng);
        assert(room_in_bounds(map.rooms@[0]));
        let (px, py) = map.rooms[0].center();
        let mut w = World::new(map);
        let e = player(&mut w, px, py);
        w.player_entity = e;
        w.player_pos = Point { x: px, y: py };
        let ghost w1 = w;
        let rooms = w.map.rooms.len();
        let mut r: usize = 1;
        while r < rooms
            invariant
                1 <= r <= rooms,
                rooms == w.map.rooms@.len(),
                rooms <= 3 * MAX_ROUNDS,
                w.wf(),
                w.map == w1.map,
                generated_map(&w.map, 1),
                1 <= w.len(),
                w.player_entity == w1.player_entity,
                w.player_pos == w1.player_pos,
                w.log == w1.log,
                World::slot_same(&w, &w1, 0),
            decreases rooms - r,
        {
            let room = w.map.rooms[r];
            assert(room_in_bounds(w.map.rooms@[r as int]));
            let ghost before = w;
            spawn_room(&mut w, &room, 1, rng);
            assert(World::slot_same(&w, &before, 0));
            r = r + 1;
        }
        w
    }
}

} // verus!
