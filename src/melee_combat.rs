use vstd::prelude::*;
use crate::component::{Entity, SufferDamage};
use crate::damage::{pending, settled_hp, sum_of};
use crate::gamelog::{GameLog, LogEntry};
use crate::world::World;

verus! {

/// Damage of one blow: attack power less defence, never negative (and capped
/// at what an `i32` holds).
pub open spec fn blow(power: int, defense: int) -> int {
    if power - defense <= 0 { 0 } else if power - defense >= i32::MAX { i32::MAX as int } else { power - defense }
}

/// The blow struck by slot `i` this turn, if any: the target slot and the
/// damage. Attacker and target both need a name and positive hit points.
pub open spec fn strike(w: &World, i: int) -> Option<(int, int)> {
    match (w.wants_melee@[i], w.combat_stats@[i], w.names@[i]) {
        (Some(m), Some(s), Some(_)) => {
            let t = m.target.id as int;
            if s.hp > 0 && t < w.len() && (w.combat_stats@[t] matches Some(ts) && ts.hp > 0) && w.names@[t] is Some {
                Some((t, blow(s.power as int, w.combat_stats@[t].unwrap().defense as int)))
            } else {
                None
            }
        },
        _ => None,
    }
}

/// The damage that slots below `k` deal to slot `j`, in slot order.
pub open spec fn blows_on(w: &World, j: int, k: int) -> Seq<i32>
    decreases k,
{
    if k <= 0 {
        Seq::empty()
    } else {
        let earlier = blows_on(w, j, k - 1);
        match strike(w, k - 1) {
            Some((t, d)) => if t == j { earlier.push(d as i32) } else { earlier },
            None => earlier,
        }
    }
}

/// The combat messages for slots below `k`.
pub open spec fn melee_messages(w: &World, k: int) -> Seq<LogEntry>
    decreases k,
{
    if k <= 0 {
        Seq::empty()
    } else {
        let earlier = melee_messages(w, k - 1);
        match strike(w, k - 1) {
            Some((t, d)) => earlier.push(LogEntry::Battle {
                attacker: w.names@[k - 1].unwrap().name,
                target: w.names@[t].unwrap().name,
                damage: d as i32,
            }),
            None => earlier,
        }
    }
}

/// Turns melee intents into queued damage.
pub struct MeleeCombatSystem {}

impl MeleeCombatSystem {
    /// Every blow is appended to its target's accumulator and logged; all
    /// melee intents are then cleared.
    pub fn run(&mut self, w: &mut World)
        requires
            old(w).wf(),
        ensures
            final(w).wf(),
            *final(w) == (World { suffer_damage: final(w).suffer_damage, wants_melee: final(w).wants_melee, log: final(w).log, ..*old(w) }),
            forall|j: int| 0 <= j < old(w).len() ==> (#[trigger] final(w).wants_melee@[j]) is None,
            forall|j: int| 0 <= j < old(w).len() ==> pending(#[trigger] final(w).suffer_damage@[j])
                == pending(old(w).suffer_damage@[j]) + blows_on(old(w), j, old(w).len() as int),
            forall|j: int| 0 <= j < old(w).len() && blows_on(old(w), j, old(w).len() as int).len() == 0
                ==> #[trigger] final(w).suffer_damage@[j] == old(w).suffer_damage@[j],
            final(w).log.entries@ == old(w).log.entries@ + melee_messages(old(w), old(w).len() as int),
    {
        let n = w.alive.len();
        let mut i: usize = 0;
        while i < n
            invariant
                n == old(w).len(),
                i <= n,
                w.wf(),
                *w == (World { suffer_damage: w.suffer_damage, log: w.log, ..*old(w) }),
                forall|j: int| 0 <= j < n ==> pending(#[trigger] w.suffer_damage@[j])
                    == pending(old(w).suffer_damage@[j]) + blows_on(old(w), j, i as int),
                forall|j: int| 0 <= j < n && blows_on(old(w), j, i as int).len() == 0
                    ==> #[trigger] w.suffer_damage@[j] == old(w).suffer_damage@[j],
                w.log.entries@ == old(w).log.entries@ + melee_messages(old(w), i as int),
            decreases n - i,
        {
            let ghost before = *w;
            if let Some(m) = w.wants_melee[i] {
                if let Some(s) = w.combat_stats[i] {
                    if s.hp > 0 && w.names[i].is_some() {
                        let t = m.target.id;
                        if t < n {
                            if let Some(ts) = w.combat_stats[t] {
                                if ts.hp > 0 && w.names[t].is_some() {
                                    let diff: i64 = s.power as i64 - ts.defense as i64;
                                    let damage: i32 = if diff <= 0 { 0 } else if diff >= i32::MAX as i64 { i32::MAX } else { diff as i32 };
                                    let attacker = match &w.names[i] { Some(nm) => nm.name.clone(), None => String::new() };
                                    let target = match &w.names[t] { Some(nm) => nm.name.clone(), None => String::new() };
                                    let entry = GameLog::battle_log(&attacker, &target, damage);
                                    w.log.entries.push(entry);
                                    SufferDamage::new_damage(&mut w.suffer_damage, Entity { id: t }, damage);
                                }
                            }
                        }
                    }
                }
            }
            assert(w.log.entries@ =~= old(w).log.entries@ + melee_messages(old(w), i as int + 1));
            assert forall|j: int| 0 <= j < n implies pending(#[trigger] w.suffer_damage@[j])
                == pending(old(w).suffer_damage@[j]) + blows_on(old(w), j, i as int + 1) by {
                assert(pending(before.suffer_damage@[j]) == pending(old(w).suffer_damage@[j]) + blows_on(old(w), j, i as int));
                match strike(old(w), i as int) {
                    Some((t, d)) => {
                        if t == j {
                            assert(pending(old(w).suffer_damage@[j]) + blows_on(old(w), j, i as int + 1)
                                =~= (pending(old(w).suffer_damage@[j]) + blows_on(old(w), j, i as int)).push(d as i32));
                        } else {
                            assert(blows_on(old(w), j, i as int + 1) == blows_on(old(w), j, i as int));
                        }
                    },
                    None => {
                        assert(blows_on(old(w), j, i as int + 1) == blows_on(old(w), j, i as int));
                    },
                }
            }
            assert forall|j: int| 0 <= j < n && blows_on(old(w), j, i as int + 1).len() == 0
                implies #[trigger] w.suffer_damage@[j] == old(w).suffer_damage@[j] by {
                match strike(old(w), i as int) {
                    Some((t, d)) => {
                        if t == j {
                            assert(blows_on(old(w), j, i as int + 1).len() > 0);
                        }
                    },
                    None => {},
                }
            }
            i = i + 1;
        }
        let mut k: usize = 0;
        while k < n
            invariant
                n == old(w).len(),
                k <= n,
                w.wf(),
                *w == (World { suffer_damage: w.suffer_damage, wants_melee: w.wants_melee, log: w.log, ..*old(w) }),
                forall|j: int| 0 <= j < k ==> (#[trigger] w.wants_melee@[j]) is None,
                forall|j: int| 0 <= j < n ==> pending(#[trigger] w.suffer_damage@[j])
                    == pending(old(w).suffer_damage@[j]) + blows_on(old(w), j, n as int),
                forall|j: int| 0 <= j < n && blows_on(old(w), j, n as int).len() == 0
                    ==> #[trigger] w.suffer_damage@[j] == old(w).suffer_damage@[j],
                w.log.entries@ == old(w).log.entries@ + melee_messages(old(w), n as int),
            decreases n - k,
        {
            w.wants_melee.set(k, None);
            k = k + 1;
        }
    }
}


/// Hit points after `k` damage passes that each resolve one blow of `d`.
pub open spec fn after_blows(hp: int, d: i32, k: nat) -> int
    decreases k,
{
    if k == 0 { hp } else { settled_hp(after_blows(hp, d, (k - 1) as nat), sum_of(seq![d])) }
}

/// Power 5 against defence 2 deals 3 a blow; six unanswered blows, each
/// resolved by a damage pass, take 16 hit points to 13, 10, 7, 4, 1 and
/// then 0 (not -2), so the mortality sweep removes the victim after the
/// sixth and not before.
pub proof fn lemma_six_blows()
    ensures
        blow(5, 2) == 3,
        forall|k: nat| k <= 5 ==> #[trigger] after_blows(16, 3, k) == 16 - 3 * k && after_blows(16, 3, k) >= 1,
        after_blows(16, 3, 6) == 0,
{
    assert(sum_of(seq![3i32]) == 3) by {
        let one = seq![3i32];
        assert(one.len() == 1 && one.last() == 3);
        assert(one.drop_last() =~= Seq::<i32>::empty());
        assert(sum_of(Seq::<i32>::empty()) == 0);
        assert(sum_of(one) == sum_of(one.drop_last()) + one.last());
    }
    reveal_with_fuel(after_blows, 7);
    assert(after_blows(16, 3, 0) == 16);
    assert(after_blows(16, 3, 1) == 13);
    assert(after_blows(16, 3, 2) == 10);
    assert(after_blows(16, 3, 3) == 7);
    assert(after_blows(16, 3, 4) == 4);
    assert(after_blows(16, 3, 5) == 1);
    assert(after_blows(16, 3, 6) == 0);
}

} // verus!
