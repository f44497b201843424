use vstd::prelude::*;
use crate::component::{CombatStats, DurationTurnHeal};
use crate::world::World;

verus! {

/// Turns between two points of natural healing.
pub const DURATION_TURNHEAL: i32 = 10;

pub open spec fn turn_heal_amount() -> int {
    1
}

/// Stats and heal counter of one entity after a healing pass.
pub open spec fn heal_tick(s: CombatStats, h: DurationTurnHeal) -> (CombatStats, DurationTurnHeal) {
    let t = if h.time < i32::MAX { h.time + 1 } else { h.time as int };
    if t >= DURATION_TURNHEAL && s.hp > 0 {
        let hp = if s.hp + turn_heal_amount() >= s.max_hp { s.max_hp as int } else { s.hp + turn_heal_amount() };
        (CombatStats { hp: hp as i32, ..s }, DurationTurnHeal { time: 0 })
    } else {
        (s, DurationTurnHeal { time: t as i32 })
    }
}

/// Natural healing over time.
pub struct TurnHealing {}

impl TurnHealing {
    /// Every entity with stats and a heal counter counts one more turn; once
    /// the counter reaches `DURATION_TURNHEAL`, a living entity regains one
    /// hit point (up to its maximum) and the counter restarts.
    pub fn run(&mut self, w: &mut World)
        requires
            old(w).wf(),
        ensures
            final(w).wf(),
            *final(w) == (World { combat_stats: final(w).combat_stats, turn_heals: final(w).turn_heals, ..*old(w) }),
            final(w).combat_stats@.len() == old(w).len(),
            final(w).turn_heals@.len() == old(w).len(),
            forall|i: int| #![trigger final(w).combat_stats@[i]] 0 <= i < old(w).len() ==>
                if old(w).combat_stats@[i] is Some && old(w).turn_heals@[i] is Some {
                    final(w).combat_stats@[i] == Some(heal_tick(old(w).combat_stats@[i].unwrap(), old(w).turn_heals@[i].unwrap()).0)
                    && final(w).turn_heals@[i] == Some(heal_tick(old(w).combat_stats@[i].unwrap(), old(w).turn_heals@[i].unwrap()).1)
                } else {
                    final(w).combat_stats@[i] == old(w).combat_stats@[i] && final(w).turn_heals@[i] == old(w).turn_heals@[i]
                },
    {
        let n = w.alive.len();
        let mut i: usize = 0;
        while i < n
            invariant
                n == old(w).len(),
                i <= n,
                w.wf(),
                *w == (World { combat_stats: w.combat_stats, turn_heals: w.turn_heals, ..*old(w) }),
                forall|k: int| #![trigger w.combat_stats@[k]] 0 <= k < n ==>
                    if k < i && old(w).combat_stats@[k] is Some && old(w).turn_heals@[k] is Some {
                        w.combat_stats@[k] == Some(heal_tick(old(w).combat_stats@[k].unwrap(), old(w).turn_heals@[k].unwrap()).0)
                        && w.turn_heals@[k] == Some(heal_tick(old(w).combat_stats@[k].unwrap(), old(w).turn_heals@[k].unwrap()).1)
                    } else {
                        w.combat_stats@[k] == old(w).combat_stats@[k] && w.turn_heals@[k] == old(w).turn_heals@[k]
                    },
            decreases n - i,
        {
            if let (Some(s), Some(h)) = (w.combat_stats[i], w.turn_heals[i]) {
                let t = if h.time < i32::MAX { h.time + 1 } else { h.time };
                if t >= DURATION_TURNHEAL && s.hp > 0 {
                    let hp = if s.hp as i64 + 1 >= s.max_hp as i64 { s.max_hp } else { s.hp + 1 };
                    w.combat_stats.set(i, Some(CombatStats { hp, ..s }));
                    w.turn_heals.set(i, Some(DurationTurnHeal { time: 0 }));
                } else {
                    w.turn_heals.set(i, Some(DurationTurnHeal { time: t }));
                }
            }
            i = i + 1;
        }
    }
}

} // verus!
