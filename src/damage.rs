use vstd::prelude::*;
use crate::component::{Entity, SufferDamage};
use crate::gamelog::{GameLog, LogEntry};
use crate::world::World;

verus! {

/// The damage queued in an accumulator slot; none when there is no accumulator.
pub open spec fn pending(s: Option<SufferDamage>) -> Seq<i32> {
    match s {
        Some(d) => d.amount@,
        None => Seq::empty(),
    }
}

pub open spec fn sum_of(s: Seq<i32>) -> int
    decreases s.len(),
{
    if s.len() == 0 { 0 } else { sum_of(s.drop_last()) + s.last() }
}

/// Hit points after taking `total` damage: never below zero (and, were the
/// damage negative, never past what an `i32` holds).
pub open spec fn settled_hp(hp: int, total: int) -> int {
    if hp - total <= 0 { 0 } else if hp - total >= i32::MAX { i32::MAX as int } else { hp - total }
}

impl SufferDamage {
    /// Queues `amount` against `victim`, creating its accumulator if needed.
    pub fn new_damage(store: &mut Vec<Option<SufferDamage>>, victim: Entity, amount: i32)
        requires
            victim.id < old(store)@.len(),
        ensures
            final(store)@.len() == old(store)@.len(),
            final(store)@[victim.id as int] is Some,
            pending(final(store)@[victim.id as int]) == pending(old(store)@[victim.id as int]).push(amount),
            forall|j: int| 0 <= j < old(store)@.len() && j != victim.id ==> final(store)@[j] == old(store)@[j],
    {
        let i = victim.id;
        let mut slot: Option<SufferDamage> = None;
        std::mem::swap(&mut slot, &mut store[i]);
        let acc = match slot {
            Some(mut d) => {
                d.amount.push(amount);
                d
            },
            None => SufferDamage { amount: vec![amount] },
        };
        store.set(i, Some(acc));
    }
}

/// Sum of a damage list, exactly.
fn total_damage(amounts: &Vec<i32>) -> (r: i128)
    ensures
        r == sum_of(amounts@),
        -0x8000_0000_0000_0000_0000_0000 <= r <= 0x8000_0000_0000_0000_0000_0000,
{
    let mut total: i128 = 0;
    let mut i: usize = 0;
    while i < amounts.len()
        invariant
            i <= amounts@.len(),
            total == sum_of(amounts@.subrange(0, i as int)),
            -(i as int) * 0x8000_0000 <= total <= (i as int) * 0x8000_0000,
        decreases amounts@.len() - i,
    {
        assert(amounts@.subrange(0, i as int + 1).drop_last() =~= amounts@.subrange(0, i as int));
        total = total + amounts[i] as i128;
        i = i + 1;
    }
    assert(amounts@.subrange(0, i as int) =~= amounts@);
    assert((i as int) * 0x8000_0000 <= 0x8000_0000_0000_0000_0000_0000);
    total
}

/// Applies queued damage.
pub struct DamageSystem {}

impl DamageSystem {
    /// Every entity with hit points and queued damage loses the sum of it
    /// (down to zero); every accumulator is then emptied.
    pub fn run(&mut self, w: &mut World)
        requires
            old(w).wf(),
        ensures
            final(w).wf(),
            *final(w) == (World { combat_stats: final(w).combat_stats, suffer_damage: final(w).suffer_damage, ..*old(w) }),
            final(w).combat_stats@.len() == old(w).combat_stats@.len(),
            forall|i: int| 0 <= i < old(w).len() ==> (#[trigger] final(w).suffer_damage@[i]) is None,
            forall|i: int| #![trigger final(w).combat_stats@[i]] 0 <= i < old(w).len() ==> final(w).combat_stats@[i] == (
                match old(w).combat_stats@[i] {
                    Some(s) => if old(w).suffer_damage@[i] is Some {
                        Some(crate::component::CombatStats { hp: settled_hp(s.hp as int, sum_of(pending(old(w).suffer_damage@[i]))) as i32, ..s })
                    } else {
                        Some(s)
                    },
                    None => None,
                }),
    {
        let n = w.alive.len();
        let mut i: usize = 0;
        while i < n
            invariant
                n == old(w).len(),
                i <= n,
                w.wf(),
                *w == (World { combat_stats: w.combat_stats, suffer_damage: w.suffer_damage, ..*old(w) }),
                forall|k: int| 0 <= k < i ==> (#[trigger] w.suffer_damage@[k]) is None,
                forall|k: int| i <= k < n ==> (#[trigger] w.suffer_damage@[k]) == old(w).suffer_damage@[k],
                forall|k: int| i <= k < n ==> (#[trigger] w.combat_stats@[k]) == old(w).combat_stats@[k],
                forall|k: int| #![trigger w.combat_stats@[k]] 0 <= k < i ==> w.combat_stats@[k] == (
                    match old(w).combat_stats@[k] {
                        Some(s) => if old(w).suffer_damage@[k] is Some {
                            Some(crate::component::CombatStats { hp: settled_hp(s.hp as int, sum_of(pending(old(w).suffer_damage@[k]))) as i32, ..s })
                        } else {
                            Some(s)
                        },
                        None => None,
                    }),
            decreases n - i,
        {
            let mut slot: Option<SufferDamage> = None;
            std::mem::swap(&mut slot, &mut w.suffer_damage[i]);
            if let Some(d) = slot {
                if let Some(s) = w.combat_stats[i] {
                    let total = total_damage(&d.amount);
                    let left: i128 = s.hp as i128 - total;
                    let hp: i32 = if left <= 0 { 0 } else if left >= i32::MAX as i128 { i32::MAX } else { left as i32 };
                    w.combat_stats.set(i, Some(crate::component::CombatStats { hp, ..s }));
                }
            }
            i = i + 1;
        }
    }
}

/// Whether the mortality sweep removes slot `i`: a non-player with hit points below one.
pub open spec fn doomed(w: &World, i: int) -> bool {
    &&& w.combat_stats@[i] matches Some(s) && s.hp < 1
    &&& w.players@[i] is None
}

/// The messages the sweep logs for slots below `k`, in slot order.
pub open spec fn dead_messages(w: &World, k: int) -> Seq<LogEntry>
    decreases k,
{
    if k <= 0 {
        Seq::empty()
    } else {
        let earlier = dead_messages(w, k - 1);
        if doomed(w, k - 1) && w.names@[k - 1] is Some {
            earlier.push(LogEntry::Dead { name: w.names@[k - 1].unwrap().name })
        } else {
            earlier
        }
    }
}

/// Deletes every entity whose hit points fell below one, except the player,
/// and logs the death of each that has a name.
pub fn delete_the_dead(w: &mut World)
    requires
        old(w).wf(),
    ensures
        final(w).wf(),
        final(w).len() == old(w).len(),
        final(w).map == old(w).map,
        final(w).player_entity == old(w).player_entity,
        final(w).player_pos == old(w).player_pos,
        final(w).log.entries@ == old(w).log.entries@ + dead_messages(old(w), old(w).len() as int),
        forall|i: int| 0 <= i < old(w).len() && doomed(old(w), i) ==> World::slot_cleared(final(w), i),
        forall|i: int| 0 <= i < old(w).len() && !doomed(old(w), i) ==> World::slot_same(final(w), old(w), i),
{
    let n = w.alive.len();
    let mut dead: Vec<Entity> = Vec::new();
    let mut i: usize = 0;
    while i < n
        invariant
            n == old(w).len(),
            i <= n,
            *w == (World { log: w.log, ..*old(w) }),
            w.wf(),
            w.log.entries@ == old(w).log.entries@ + dead_messages(old(w), i as int),
            dead@.len() <= i,
            forall|k: int| 0 <= k < dead@.len() ==> (#[trigger] dead@[k]).id < i && doomed(old(w), dead@[k].id as int),
            forall|k: int| 0 <= k < i && doomed(old(w), k) ==> exists|m: int| 0 <= m < dead@.len() && (#[trigger] dead@[m]).id == k,
        decreases n - i,
    {
        let ghost d0 = dead@;
        if let Some(s) = w.combat_stats[i] {
            if s.hp < 1 && w.players[i].is_none() {
                if let Some(nm) = &w.names[i] {
                    let entry = GameLog::dead_log(&nm.name);
                    w.log.entries.push(entry);
                }
                dead.push(Entity { id: i });
                assert(dead@[dead@.len() - 1].id == i);
            }
        }
        assert(w.log.entries@ =~= old(w).log.entries@ + dead_messages(old(w), i as int + 1));
        assert forall|k: int| 0 <= k < i + 1 && doomed(old(w), k) implies exists|m: int| 0 <= m < dead@.len() && (#[trigger] dead@[m]).id == k by {
            if k < i {
                let m = choose|m: int| 0 <= m < d0.len() && (#[trigger] d0[m]).id == k;
                assert(dead@[m] == d0[m]);
            } else {
                assert(dead@[dead@.len() - 1].id == i);
            }
        }
        i = i + 1;
    }
    let ghost mid = *w;
    let mut j: usize = 0;
    while j < dead.len()
        invariant
            j <= dead@.len(),
            w.wf(),
            w.len() == n,
            w.map == mid.map,
            w.player_entity == mid.player_entity,
            w.player_pos == mid.player_pos,
            w.log == mid.log,
            forall|k: int| 0 <= k < dead@.len() ==> (#[trigger] dead@[k]).id < n && doomed(old(w), dead@[k].id as int),
            forall|m: int| 0 <= m < j ==> World::slot_cleared(w, (#[trigger] dead@[m]).id as int),
            forall|k: int| 0 <= k < n && !doomed(old(w), k) ==> World::slot_same(w, old(w), k),
        decreases dead@.len() - j,
    {
        let ghost before = *w;
        w.delete_entity(dead[j]);
        assert forall|k: int| 0 <= k < n && !doomed(old(w), k) implies World::slot_same(w, old(w), k) by {
            assert(k != dead@[j as int].id);
            assert(World::slot_same(w, &before, k));
            assert(World::slot_same(&before, old(w), k));
        }
        assert forall|m: int| 0 <= m < j + 1 implies World::slot_cleared(w, (#[trigger] dead@[m]).id as int) by {
            if m < j && dead@[m].id != dead@[j as int].id {
                assert(World::slot_same(w, &before, dead@[m].id as int));
            }
        }
        j = j + 1;
    }
    assert forall|k: int| 0 <= k < old(w).len() && doomed(old(w), k) implies World::slot_cleared(w, k) by {
        let m = choose|m: int| 0 <= m < dead@.len() && (#[trigger] dead@[m]).id == k;
        assert(World::slot_cleared(w, dead@[m].id as int));
    }
}

proof fn lemma_sum_nonneg(s: Seq<i32>)
    requires
        forall|k: int| 0 <= k < s.len() ==> s[k] >= 0,
    ensures
        sum_of(s) >= 0,
    decreases s.len(),
{
    if s.len() > 0 {
        lemma_sum_nonneg(s.drop_last());
    }
}

/// Blows queued in one turn compound: a damage pass takes away their sum,
/// down to zero, and one more blow adds its damage to that sum.
pub proof fn lemma_hits_compound(hp: i32, hits: Seq<i32>, extra: i32)
    requires
        hp >= 0,
        forall|k: int| 0 <= k < hits.len() ==> hits[k] >= 0,
    ensures
        settled_hp(hp as int, sum_of(hits)) == (if sum_of(hits) >= hp { 0 } else { hp - sum_of(hits) }),
        sum_of(hits.push(extra)) == sum_of(hits) + extra,
{
    lemma_sum_nonneg(hits);
    assert(hits.push(extra).drop_last() == hits);
}

} // verus!
