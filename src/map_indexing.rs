use vstd::prelude::*;
use crate::component::Entity;
use crate::map::{GameMap, idx_of, in_bounds, MAPSIZE_COUNT};
use crate::world::World;

verus! {

/// The tile index of slot `i`'s position, when it has one on the map.
pub open spec fn tile_of(w: &World, i: int) -> Option<int> {
    match w.positions@[i] {
        Some(p) => if in_bounds(p.x as int, p.y as int) { Some(idx_of(p.x as int, p.y as int)) } else { None },
        None => None,
    }
}

/// The entities among slots below `k` that stand on tile `t`, in slot order.
pub open spec fn occupants(w: &World, t: int, k: int) -> Seq<Entity>
    decreases k,
{
    if k <= 0 {
        Seq::empty()
    } else if tile_of(w, k - 1) == Some(t) {
        occupants(w, t, k - 1).push(Entity { id: (k - 1) as usize })
    } else {
        occupants(w, t, k - 1)
    }
}

/// Whether some slot below `k` that blocks movement stands on tile `t`.
pub open spec fn blocker_on(w: &World, t: int, k: int) -> bool {
    exists|i: int| 0 <= i < k && tile_of(w, i) == Some(t) && (#[trigger] w.blocks_tiles@[i]) is Some
}

/// Rebuilds the occupancy index and the blocked flags.
pub struct MapIndexingSystem {}

impl MapIndexingSystem {
    /// After a pass, each tile lists exactly the entities standing on it, in
    /// slot order, and is blocked exactly when it is a wall or holds an
    /// entity that blocks.
    pub fn run(&mut self, w: &mut World)
        requires
            old(w).wf(),
        ensures
            final(w).wf(),
            *final(w) == (World { map: final(w).map, ..*old(w) }),
            final(w).map == (GameMap { blocked: final(w).map.blocked, tile_content: final(w).map.tile_content, ..old(w).map }),
            forall|t: int| 0 <= t < MAPSIZE_COUNT ==> (#[trigger] final(w).map.tile_content@[t])@ == occupants(old(w), t, old(w).len() as int),
            forall|t: int| 0 <= t < MAPSIZE_COUNT ==> #[trigger] final(w).map.blocked@[t]
                == (old(w).map.is_wall(t) || blocker_on(old(w), t, old(w).len() as int)),
    {
        w.map.clear_content_index();
        w.map.populate_blocked();
        let n = w.alive.len();
        let mut i: usize = 0;
        while i < n
            invariant
                n == old(w).len(),
                i <= n,
                w.wf(),
                *w == (World { map: w.map, ..*old(w) }),
                w.map == (GameMap { blocked: w.map.blocked, tile_content: w.map.tile_content, ..old(w).map }),
                forall|t: int| 0 <= t < MAPSIZE_COUNT ==> (#[trigger] w.map.tile_content@[t])@ == occupants(old(w), t, i as int),
                forall|t: int| 0 <= t < MAPSIZE_COUNT ==> #[trigger] w.map.blocked@[t]
                    == (old(w).map.is_wall(t) || blocker_on(old(w), t, i as int)),
            decreases n - i,
        {
            let ghost before = w.map;
            if let Some(p) = w.positions[i] {
                if 0 <= p.x && p.x < 64 && 0 <= p.y && p.y < 64 {
                    let idx = w.map.xy_idx(p.x, p.y);
                    let mut list: Vec<Entity> = Vec::new();
                    std::mem::swap(&mut list, &mut w.map.tile_content[idx]);
                    list.push(Entity { id: i });
                    w.map.tile_content.set(idx, list);
                    if w.blocks_tiles[i].is_some() {
                        w.map.blocked.set(idx, true);
                    }
                }
            }
            assert forall|t: int| 0 <= t < MAPSIZE_COUNT implies (#[trigger] w.map.tile_content@[t])@ == occupants(old(w), t, i as int + 1) by {
                if tile_of(old(w), i as int) == Some(t) {
                } else {
                    assert(w.map.tile_content@[t] == before.tile_content@[t]);
                }
            }
            assert forall|t: int| 0 <= t < MAPSIZE_COUNT implies #[trigger] w.map.blocked@[t]
                == (old(w).map.is_wall(t) || blocker_on(old(w), t, i as int + 1)) by {
                if tile_of(old(w), i as int) == Some(t) && old(w).blocks_tiles@[i as int] is Some {
                    assert(blocker_on(old(w), t, i as int + 1));
                } else {
                    if blocker_on(old(w), t, i as int + 1) {
                        let k = choose|k: int| 0 <= k < i + 1 && tile_of(old(w), k) == Some(t) && (#[trigger] old(w).blocks_tiles@[k]) is Some;
                        assert(k < i);
                        assert(blocker_on(old(w), t, i as int));
                    }
                    if blocker_on(old(w), t, i as int) {
                        let k = choose|k: int| 0 <= k < i && tile_of(old(w), k) == Some(t) && (#[trigger] old(w).blocks_tiles@[k]) is Some;
                        assert(blocker_on(old(w), t, i as int + 1));
                    }
                }
            }
            i = i + 1;
        }
    }
}

} // verus!
