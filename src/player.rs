use vstd::prelude::*;
use crate::component::{DropItem, Entity, Position, Viewshed, WantsToMelee, WantsToPickupItem, WantsToUseItem};
use crate::gamelog::{GameLog, LogEntry};
use crate::geom::{Point, dist_sq};
use crate::map::{TileType, idx_of, in_bounds, MAPSIZE_COUNT};
use crate::state::RunState;
use crate::world::World;

verus! {

pub open spec fn has_stats(w: &World, e: Entity) -> bool {
    e.id < w.len() && w.combat_stats@[e.id as int] is Some
}

/// Whether the player entity has what moving needs: a position and a viewshed.
pub open spec fn player_can_move(w: &World) -> bool {
    let p = w.player_entity.id as int;
    p < w.len() && w.players@[p] is Some && w.positions@[p] is Some && w.viewsheds@[p] is Some
}

/// Moves the player by `(delta_x, delta_y)`, or attacks what stands there.
/// A destination outside the map's inner area is refused (`AwaitingInput`,
/// nothing changes). If an entity with stats stands on it, the first such
/// one in the tile's list becomes the player's melee target; otherwise the
/// player steps there unless it is blocked. Either way the turn is taken.
pub fn try_move_player(delta_x: i32, delta_y: i32, w: &mut World) -> (r: RunState)
    requires
        old(w).wf(),
    ensures
        final(w).wf(),
        ({
            let p = old(w).player_entity.id as int;
            if player_can_move(old(w)) {
                let pos = old(w).positions@[p].unwrap();
                let nx = pos.x + delta_x;
                let ny = pos.y + delta_y;
                if nx < 1 || nx > old(w).map.width - 1 || ny < 1 || ny > old(w).map.height - 1 {
                    r == RunState::AwaitingInput && *final(w) == *old(w)
                } else {
                    let s = old(w).map.tile_content@[idx_of(nx, ny)]@;
                    &&& r == RunState::PlayerTurn
                    &&& if exists|j: int| 0 <= j < s.len() && has_stats(old(w), #[trigger] s[j]) {
                        exists|j: int| #![trigger s[j]] 0 <= j < s.len() && has_stats(old(w), s[j])
                            && (forall|k: int| 0 <= k < j ==> !has_stats(old(w), #[trigger] s[k]))
                            && *final(w) == (World { wants_melee: final(w).wants_melee, ..*old(w) })
                            && final(w).wants_melee@ == old(w).wants_melee@.update(p, Some(WantsToMelee { target: s[j] }))
                    } else if !old(w).map.blocked@[idx_of(nx, ny)] {
                        &&& *final(w) == (World { positions: final(w).positions, viewsheds: final(w).viewsheds, player_pos: final(w).player_pos, ..*old(w) })
                        &&& final(w).positions@ == old(w).positions@.update(p, Some(Position { x: nx as i32, y: ny as i32 }))
                        &&& final(w).player_pos == (Point { x: nx as i32, y: ny as i32 })
                        &&& final(w).viewsheds@.len() == old(w).len()
                        &&& final(w).viewsheds@[p] matches Some(v) && v.dirty
                            && v.visible_tiles == old(w).viewsheds@[p].unwrap().visible_tiles && v.range == old(w).viewsheds@[p].unwrap().range
                        &&& forall|j: int| 0 <= j < old(w).len() && j != p ==> #[trigger] final(w).viewsheds@[j] == old(w).viewsheds@[j]
                    } else {
                        *final(w) == *old(w)
                    }
                }
            } else {
                r == RunState::PlayerTurn && *final(w) == *old(w)
            }
        }),
{
    let p = w.player_entity.id;
    if p >= w.alive.len() || w.players[p].is_none() || w.positions[p].is_none() || w.viewsheds[p].is_none() {
        return RunState::PlayerTurn;
    }
    let pos = w.positions[p].unwrap();
    let nx: i64 = pos.x as i64 + delta_x as i64;
    let ny: i64 = pos.y as i64 + delta_y as i64;
    if nx < 1 || nx > w.map.width as i64 - 1 || ny < 1 || ny > w.map.height as i64 - 1 {
        return RunState::AwaitingInput;
    }
    let dest = w.map.xy_idx(nx as i32, ny as i32);
    let n = w.alive.len();
    let mut j: usize = 0;
    while j < w.map.tile_content[dest].len()
        invariant
            w.wf(),
            *w == *old(w),
            p < n,
            p == old(w).player_entity.id,
            player_can_move(old(w)),
            dest == idx_of(nx as int, ny as int),
            pos == old(w).positions@[p as int].unwrap(),
            nx == pos.x + delta_x,
            ny == pos.y + delta_y,
            1 <= nx <= 63 && 1 <= ny <= 63,
            n == w.len(),
            dest < MAPSIZE_COUNT,
            j <= w.map.tile_content@[dest as int]@.len(),
            forall|k: int| 0 <= k < j ==> !has_stats(w, #[trigger] w.map.tile_content@[dest as int]@[k]),
        decreases w.map.tile_content@[dest as int]@.len() - j,
    {
        let t = w.map.tile_content[dest][j];
        if t.id < n && w.combat_stats[t.id].is_some() {
            let ghost s = w.map.tile_content@[dest as int]@;
            w.wants_melee.set(p, Some(WantsToMelee { target: t }));
            assert(has_stats(old(w), s[j as int]));
            assert(s == old(w).map.tile_content@[idx_of(pos.x + delta_x, pos.y + delta_y)]@);
            assert(exists|q: int| 0 <= q < s.len() && has_stats(old(w), #[trigger] s[q]));
            assert(0 <= j < s.len() && has_stats(old(w), s[j as int])
                && (forall|k: int| 0 <= k < j ==> !has_stats(old(w), #[trigger] s[k]))
                && *w == (World { wants_melee: w.wants_melee, ..*old(w) })
                && w.wants_melee@ == old(w).wants_melee@.update(p as int, Some(WantsToMelee { target: s[j as int] })));
            return RunState::PlayerTurn;
        }
        j = j + 1;
    }
    if !w.map.blocked[dest] {
        w.positions.set(p, Some(Position { x: nx as i32, y: ny as i32 }));
        w.player_pos = Point { x: nx as i32, y: ny as i32 };
        let mut slot: Option<Viewshed> = None;
        std::mem::swap(&mut slot, &mut w.viewsheds[p]);
        let mut v = slot.unwrap();
        v.dirty = true;
        w.viewsheds.set(p, Some(v));
    }
    RunState::PlayerTurn
}

/// Whether the player stands on the stairs down.
pub open spec fn on_stairs(w: &World) -> bool {
    in_bounds(w.player_pos.x as int, w.player_pos.y as int)
        && w.map.tiles@[idx_of(w.player_pos.x as int, w.player_pos.y as int)].tiletype == TileType::DownStairs
}

/// Asks to go down: `NextLevel` on the stairs; elsewhere the request is
/// refused with a message and the game keeps waiting for input.
pub fn try_next_level(w: &mut World) -> (r: RunState)
    requires
        old(w).wf(),
    ensures
        final(w).wf(),
        on_stairs(old(w)) ==> r == RunState::NextLevel && *final(w) == *old(w),
        !on_stairs(old(w)) ==> r == RunState::AwaitingInput
            && *final(w) == (World { log: final(w).log, ..*old(w) })
            && final(w).log.entries@ == old(w).log.entries@.push(LogEntry::CannotDescend),
{
    let pp = w.player_pos;
    if 0 <= pp.x && pp.x < 64 && 0 <= pp.y && pp.y < 64 {
        let idx = w.map.xy_idx(pp.x, pp.y);
        if w.map.tiles[idx].tiletype == TileType::DownStairs {
            return RunState::NextLevel;
        }
    }
    w.log.entries.push(GameLog::cannot_down_log());
    RunState::AwaitingInput
}

/// Whether slot `i` is an item lying on the player's tile.
pub open spec fn item_here(w: &World, i: int) -> bool {
    w.items@[i] is Some && (w.positions@[i] matches Some(p) && p.x == w.player_pos.x && p.y == w.player_pos.y)
}

/// Asks to pick up what lies under the player: the last such item in slot
/// order. With nothing there, a message is logged. The turn is taken either way.
pub fn get_item(w: &mut World) -> (r: RunState)
    requires
        old(w).wf(),
    ensures
        final(w).wf(),
        r == RunState::PlayerTurn,
        ({
            let p = old(w).player_entity;
            if exists|i: int| 0 <= i < old(w).len() && #[trigger] item_here(old(w), i) {
                exists|i: int| 0 <= i < old(w).len() && #[trigger] item_here(old(w), i)
                    && (forall|k: int| i < k < old(w).len() ==> !#[trigger] item_here(old(w), k))
                    && *final(w) == (World { wants_pickup: final(w).wants_pickup, ..*old(w) })
                    && (p.id < old(w).len() ==> final(w).wants_pickup@ == old(w).wants_pickup@.update(p.id as int,
                        Some(WantsToPickupItem { collected_by: p, item: Entity { id: i as usize } })))
                    && (p.id >= old(w).len() ==> final(w).wants_pickup == old(w).wants_pickup)
            } else {
                *final(w) == (World { log: final(w).log, ..*old(w) })
                    && final(w).log.entries@ == old(w).log.entries@.push(LogEntry::NothingHere)
            }
        }),
{
    let n = w.alive.len();
    let mut found: Option<usize> = None;
    let mut i: usize = 0;
    while i < n
        invariant
            w.wf(),
            n == w.len(),
            i <= n,
            match found {
                Some(f) => f < i && item_here(w, f as int) && forall|k: int| f < k < i ==> !#[trigger] item_here(w, k),
                None => forall|k: int| 0 <= k < i ==> !#[trigger] item_here(w, k),
            },
        decreases n - i,
    {
        if w.items[i].is_some() {
            if let Some(p) = w.positions[i] {
                if p.x == w.player_pos.x && p.y == w.player_pos.y {
                    found = Some(i);
                }
            }
        }
        i = i + 1;
    }
    match found {
        None => {
            w.log.entries.push(GameLog::try_get_but_nothing_log());
        },
        Some(item) => {
            let p = w.player_entity;
            if p.id < n {
                w.wants_pickup.set(p.id, Some(WantsToPickupItem { collected_by: p, item: Entity { id: item } }));
            }
            assert(item_here(old(w), item as int));
        },
    }
    RunState::PlayerTurn
}

/// Whether slot `i` is in the player's backpack (and has a name to list it by).
pub open spec fn in_pack(w: &World, i: int) -> bool {
    (w.in_backpacks@[i] matches Some(b) && b.owner == w.player_entity) && w.names@[i] is Some
}

/// The player's backpack, in slot order, as shown to the player.
pub open spec fn backpack(w: &World, k: int) -> Seq<Entity>
    decreases k,
{
    if k <= 0 {
        Seq::empty()
    } else if in_pack(w, k - 1) {
        backpack(w, k - 1).push(Entity { id: (k - 1) as usize })
    } else {
        backpack(w, k - 1)
    }
}

proof fn lemma_backpack_bounded(w: &World, k: int)
    requires
        0 <= k,
    ensures
        backpack(w, k).len() <= k,
        forall|q: int| 0 <= q < backpack(w, k).len() ==> (#[trigger] backpack(w, k)[q]).id < k,
    decreases k,
{
    if k > 0 {
        lemma_backpack_bounded(w, k - 1);
    }
}

/// The entity in backpack slot `keynum`, if there is one.
pub fn backpack_item(w: &World, keynum: i32) -> (r: Option<Entity>)
    requires
        w.wf(),
    ensures
        r == (if 0 <= keynum < backpack(w, w.len() as int).len() { Some(backpack(w, w.len() as int)[keynum as int]) } else { None }),
        r matches Some(e) ==> e.id < w.len(),
{
    let n = w.alive.len();
    proof { lemma_backpack_bounded(w, n as int); }
    if keynum < 0 {
        return None;
    }
    let key = keynum as usize;
    let mut j: usize = 0;
    let mut i: usize = 0;
    while i < n
        invariant
            w.wf(),
            n == w.len(),
            i <= n,
            key == keynum,
            j == backpack(w, i as int).len(),
            j <= i,
            j <= key,
        decreases n - i,
    {
        proof { lemma_backpack_bounded(w, i as int); }
        let listed = match (&w.in_backpacks[i], &w.names[i]) {
            (Some(b), Some(_)) => b.owner == w.player_entity,
            _ => false,
        };
        if listed {
            if j == key {
                proof { lemma_prefix_backpack(w, i as int + 1, n as int); lemma_backpack_bounded(w, n as int); }
                return Some(Entity { id: i });
            }
            j = j + 1;
        }
        i = i + 1;
    }
    None
}

proof fn lemma_prefix_backpack(w: &World, k: int, m: int)
    requires
        0 <= k <= m,
    ensures
        backpack(w, m).len() >= backpack(w, k).len(),
        forall|q: int| 0 <= q < backpack(w, k).len() ==> #[trigger] backpack(w, m)[q] == backpack(w, k)[q],
    decreases m - k,
{
    if k < m {
        lemma_prefix_backpack(w, k, m - 1);
    }
}

/// Uses backpack slot `keynum`: a ranged item first needs a target, anything
/// else is used on the player at once. A slot that does not exist is
/// refused with a message.
pub fn try_use_item(w: &mut World, keynum: i32) -> (r: RunState)
    requires
        old(w).wf(),
    ensures
        final(w).wf(),
        ({
            let pack = backpack(old(w), old(w).len() as int);
            let p = old(w).player_entity.id as int;
            if 0 <= keynum < pack.len() {
                let item = pack[keynum as int];
                match old(w).ranged@[item.id as int] {
                    Some(rg) => r == (RunState::ShowTargeting { range: rg.range, item }) && *final(w) == *old(w),
                    None => {
                        &&& r == RunState::PlayerTurn
                        &&& *final(w) == (World { wants_use: final(w).wants_use, ..*old(w) })
                        &&& p < old(w).len() ==> final(w).wants_use@ == old(w).wants_use@.update(p, Some(WantsToUseItem { item, target: None }))
                        &&& p >= old(w).len() ==> final(w).wants_use == old(w).wants_use
                    },
                }
            } else {
                &&& r == RunState::AwaitingInput
                &&& *final(w) == (World { log: final(w).log, ..*old(w) })
                &&& final(w).log.entries@ == old(w).log.entries@.push(LogEntry::NoSuchItem)
            }
        }),
{
    match backpack_item(w, keynum) {
        Some(item) => {
            match w.ranged[item.id] {
                Some(rg) => RunState::ShowTargeting { range: rg.range, item },
                None => {
                    let p = w.player_entity.id;
                    if p < w.alive.len() {
                        w.wants_use.set(p, Some(WantsToUseItem { item, target: None }));
                    }
                    RunState::PlayerTurn
                },
            }
        },
        None => {
            w.log.entries.push(GameLog::try_do_item_but_no_item());
            RunState::AwaitingInput
        },
    }
}

/// Drops backpack slot `keynum`; a slot that does not exist is refused with
/// a message.
pub fn try_drop_item(w: &mut World, keynum: i32) -> (r: RunState)
    requires
        old(w).wf(),
    ensures
        final(w).wf(),
        ({
            let pack = backpack(old(w), old(w).len() as int);
            let p = old(w).player_entity.id as int;
            if 0 <= keynum < pack.len() {
                &&& r == RunState::PlayerTurn
                &&& *final(w) == (World { drop_items: final(w).drop_items, ..*old(w) })
                &&& p < old(w).len() ==> final(w).drop_items@ == old(w).drop_items@.update(p, Some(DropItem { item: pack[keynum as int] }))
                &&& p >= old(w).len() ==> final(w).drop_items == old(w).drop_items
            } else {
                &&& r == RunState::AwaitingInput
                &&& *final(w) == (World { log: final(w).log, ..*old(w) })
                &&& final(w).log.entries@ == old(w).log.entries@.push(LogEntry::NoSuchItem)
            }
        }),
{
    match backpack_item(w, keynum) {
        Some(item) => {
            let p = w.player_entity.id;
            if p < w.alive.len() {
                w.drop_items.set(p, Some(DropItem { item }));
            }
            RunState::PlayerTurn
        },
        None => {
            w.log.entries.push(GameLog::try_do_item_but_no_item());
            RunState::AwaitingInput
        },
    }
}

/// Whether `t` can be targeted at `range`: the player sees it and it is no
/// farther than `range` from the player.
pub open spec fn targetable(w: &World, t: Point, range: int) -> bool {
    let p = w.player_entity.id as int;
    &&& p < w.len()
    &&& w.viewsheds@[p] is Some
    &&& w.viewsheds@[p].unwrap().visible_tiles@.contains(t)
    &&& range >= 0
    &&& dist_sq(w.player_pos, t) <= range * range
}

fn within_range(a: Point, b: Point, range: i32) -> (r: bool)
    ensures
        r == (range >= 0 && dist_sq(a, b) <= range * range),
{
    if range < 0 {
        return false;
    }
    let dx: i128 = a.x as i128 - b.x as i128;
    let dy: i128 = a.y as i128 - b.y as i128;
    assert(0 <= dx * dx <= 0x4_0000_0000_0000_0000) by (nonlinear_arith)
        requires -0x1_0000_0000 <= dx <= 0x1_0000_0000;
    assert(0 <= dy * dy <= 0x4_0000_0000_0000_0000) by (nonlinear_arith)
        requires -0x1_0000_0000 <= dy <= 0x1_0000_0000;
    assert(0 <= (range as int) * (range as int) <= 0x4000_0000_0000_0000) by (nonlinear_arith)
        requires 0 <= range <= i32::MAX;
    dx * dx + dy * dy <= range as i128 * range as i128
}

/// The tiles the player sees that lie within `range`, in view order.
pub fn inside_range(w: &World, range: i32) -> (r: Vec<Point>)
    requires
        w.wf(),
    ensures
        forall|q: int| 0 <= q < r@.len() ==> targetable(w, #[trigger] r@[q], range as int),
        forall|t: Point| targetable(w, t, range as int) ==> r@.contains(t),
{
    let mut out: Vec<Point> = Vec::new();
    let p = w.player_entity.id;
    if p >= w.alive.len() {
        return out;
    }
    match &w.viewsheds[p] {
        None => out,
        Some(v) => {
            let mut i: usize = 0;
            while i < v.visible_tiles.len()
                invariant
                    w.wf(),
                    p == w.player_entity.id,
                    p < w.len(),
                    w.viewsheds@[p as int] == Some(*v),
                    i <= v.visible_tiles@.len(),
                    forall|q: int| 0 <= q < out@.len() ==> targetable(w, #[trigger] out@[q], range as int),
                    forall|k: int| 0 <= k < i && range >= 0 && dist_sq(w.player_pos, #[trigger] v.visible_tiles@[k]) <= range * range
                        ==> out@.contains(v.visible_tiles@[k]),
                decreases v.visible_tiles@.len() - i,
            {
                let t = v.visible_tiles[i];
                let ghost o0 = out@;
                if within_range(w.player_pos, t, range) {
                    out.push(t);
                    assert(out@[out@.len() - 1] == t);
                }
                assert forall|k: int| 0 <= k < i + 1 && range >= 0 && dist_sq(w.player_pos, #[trigger] v.visible_tiles@[k]) <= range * range
                    implies out@.contains(v.visible_tiles@[k]) by {
                    if k < i {
                        let q = choose|q: int| 0 <= q < o0.len() && o0[q] == v.visible_tiles@[k];
                        assert(out@[q] == o0[q]);
                    } else {
                        assert(out@[out@.len() - 1] == t);
                    }
                }
                i = i + 1;
            }
            assert forall|t: Point| targetable(w, t, range as int) implies out@.contains(t) by {
                let k = choose|k: int| 0 <= k < v.visible_tiles@.len() && v.visible_tiles@[k] == t;
                assert(dist_sq(w.player_pos, v.visible_tiles@[k]) <= range * range);
            }
            out
        },
    }
}

/// Targets a ranged item at `target`: accepted when the player sees the
/// tile within `range`, which queues the use; otherwise nothing happens and
/// the game waits for input again.
pub fn try_target_object(w: &mut World, item: Entity, range: i32, target: Point) -> (r: RunState)
    requires
        old(w).wf(),
    ensures
        final(w).wf(),
        targetable(old(w), target, range as int) ==> r == RunState::PlayerTurn
            && *final(w) == (World { wants_use: final(w).wants_use, ..*old(w) })
            && final(w).wants_use@ == old(w).wants_use@.update(old(w).player_entity.id as int,
                Some(WantsToUseItem { item, target: Some(target) })),
        !targetable(old(w), target, range as int) ==> r == RunState::AwaitingInput && *final(w) == *old(w),
{
    let cells = inside_range(w, range);
    let mut i: usize = 0;
    while i < cells.len()
        invariant
            w.wf(),
            *w == *old(w),
            i <= cells@.len(),
            forall|q: int| 0 <= q < cells@.len() ==> targetable(w, #[trigger] cells@[q], range as int),
            forall|t: Point| targetable(w, t, range as int) ==> cells@.contains(t),
            forall|k: int| 0 <= k < i ==> cells@[k] != target,
        decreases cells@.len() - i,
    {
        if cells[i] == target {
            assert(targetable(w, cells@[i as int], range as int));
            let p = w.player_entity.id;
            w.wants_use.set(p, Some(WantsToUseItem { item, target: Some(target) }));
            return RunState::PlayerTurn;
        }
        i = i + 1;
    }
    RunState::AwaitingInput
}

} // verus!
