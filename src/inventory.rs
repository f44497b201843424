use vstd::prelude::*;
use crate::component::{CombatStats, Entity, InBackpack, Paralyze, Position, SufferDamage, WantsToUseItem};
use crate::damage::pending;
use crate::gamelog::{GameLog, LogEntry};
use crate::geom::Point;
use crate::map::{idx_of, in_bounds, MAPSIZE_COUNT};
use crate::world::World;
use crate::map_indexing::{occupants, tile_of};

verus! {

/// The entities standing on the on-map tiles of `tiles`, tile by tile.
pub open spec fn blast_occupants(content: Seq<Vec<Entity>>, tiles: Seq<Point>) -> Seq<Entity>
    decreases tiles.len(),
{
    if tiles.len() == 0 {
        Seq::empty()
    } else {
        let p = tiles.last();
        blast_occupants(content, tiles.drop_last()) + (if in_bounds(p.x as int, p.y as int) {
            content[idx_of(p.x as int, p.y as int)]@
        } else {
            Seq::empty()
        })
    }
}

/// Whom an item use by slot `user` affects: the user itself when no point is given; otherwise
/// whoever stands on the point, or, for an area item, on any on-map tile of
/// `blast` (the field of view of the blast's radius around the point).
pub open spec fn item_targets(w: &World, user: int, intent: WantsToUseItem, blast: Seq<Point>) -> Seq<Entity> {
    match intent.target {
        None => seq![Entity { id: user as usize }],
        Some(pt) => if intent.item.id < w.len() && w.aoe@[intent.item.id as int] is Some {
            blast_occupants(w.map.tile_content@, blast)
        } else if in_bounds(pt.x as int, pt.y as int) {
            w.map.tile_content@[idx_of(pt.x as int, pt.y as int)]@
        } else {
            Seq::empty()
        },
    }
}

/// Hit points after healing by `amount`: never above `max_hp`.
pub open spec fn healed(hp: int, max_hp: int, amount: int) -> int {
    if hp + amount >= max_hp { max_hp } else if hp + amount <= i32::MIN { i32::MIN as int } else { hp + amount }
}

/// The stats after each target in turn is healed by `amount`.
pub open spec fn heal_all(stats: Seq<Option<CombatStats>>, ts: Seq<Entity>, amount: int) -> Seq<Option<CombatStats>>
    decreases ts.len(),
{
    if ts.len() == 0 {
        stats
    } else {
        let prev = heal_all(stats, ts.drop_last(), amount);
        let t = ts.last().id as int;
        if t < prev.len() && prev[t] is Some {
            let s = prev[t].unwrap();
            prev.update(t, Some(CombatStats { hp: healed(s.hp as int, s.max_hp as int, amount) as i32, ..s }))
        } else {
            prev
        }
    }
}

proof fn lemma_heal_all_shape(stats: Seq<Option<CombatStats>>, ts: Seq<Entity>, amount: int)
    ensures
        heal_all(stats, ts, amount).len() == stats.len(),
        forall|t: int| 0 <= t < stats.len() ==> (#[trigger] heal_all(stats, ts, amount)[t] is Some) == (stats[t] is Some),
    decreases ts.len(),
{
    if ts.len() > 0 {
        lemma_heal_all_shape(stats, ts.drop_last(), amount);
    }
}

/// The damage queued against slot `j` when every target takes `amount`.
pub open spec fn damage_queue(ts: Seq<Entity>, j: int, amount: i32) -> Seq<i32>
    decreases ts.len(),
{
    if ts.len() == 0 {
        Seq::empty()
    } else if ts.last().id == j {
        damage_queue(ts.drop_last(), j, amount).push(amount)
    } else {
        damage_queue(ts.drop_last(), j, amount)
    }
}

pub open spec fn targeted(ts: Seq<Entity>, j: int) -> bool {
    exists|k: int| 0 <= k < ts.len() && (#[trigger] ts[k]).id == j
}

pub open spec fn heal_messages(w: &World, user: int, item: int, ts: Seq<Entity>, amount: i32) -> Seq<LogEntry>
    decreases ts.len(),
{
    if ts.len() == 0 {
        Seq::empty()
    } else {
        let prev = heal_messages(w, user, item, ts.drop_last(), amount);
        let t = ts.last().id as int;
        if t < w.len() && w.combat_stats@[t] is Some && user == w.player_entity.id && w.names@[item] is Some {
            prev.push(LogEntry::Heal { item: w.names@[item].unwrap().name, amount })
        } else {
            prev
        }
    }
}

pub open spec fn damage_messages(w: &World, user: int, ts: Seq<Entity>, amount: i32) -> Seq<LogEntry>
    decreases ts.len(),
{
    if ts.len() == 0 {
        Seq::empty()
    } else {
        let prev = damage_messages(w, user, ts.drop_last(), amount);
        let t = ts.last().id as int;
        let p = w.player_entity.id as int;
        if t < w.len() && user == p && p < w.len() && w.names@[p] is Some && w.names@[t] is Some {
            prev.push(LogEntry::Battle { attacker: w.names@[p].unwrap().name, target: w.names@[t].unwrap().name, damage: amount })
        } else {
            prev
        }
    }
}

pub open spec fn paralyze_messages(w: &World, ts: Seq<Entity>) -> Seq<LogEntry>
    decreases ts.len(),
{
    if ts.len() == 0 {
        Seq::empty()
    } else {
        let prev = paralyze_messages(w, ts.drop_last());
        let t = ts.last().id as int;
        if t < w.len() && w.names@[t] is Some {
            prev.push(LogEntry::Paralyzed { name: w.names@[t].unwrap().name })
        } else {
            prev
        }
    }
}

/// Resolves item use.
pub struct ItemUseSystem {}

impl ItemUseSystem {
    /// The entities an intent affects; see `item_targets`.
    pub fn collect_targets(&self, w: &World, user: usize, intent: WantsToUseItem, blast: &Vec<Point>) -> (r: Vec<Entity>)
        requires
            w.wf(),
        ensures
            r@ == item_targets(w, user as int, intent, blast@),
    {
        match intent.target {
            None => {
                let mut v: Vec<Entity> = Vec::new();
                v.push(Entity { id: user });
                assert(v@ =~= seq![Entity { id: user }]);
                v
            },
            Some(pt) => {
                if intent.item.id < w.alive.len() && w.aoe[intent.item.id].is_some() {
                    let mut v: Vec<Entity> = Vec::new();
                    let mut i: usize = 0;
                    while i < blast.len()
                        invariant
                            w.wf(),
                            i <= blast@.len(),
                            v@ == blast_occupants(w.map.tile_content@, blast@.subrange(0, i as int)),
                        decreases blast@.len() - i,
                    {
                        let p = blast[i];
                        assert(blast@.subrange(0, i as int + 1).drop_last() =~= blast@.subrange(0, i as int));
                        if 0 <= p.x && p.x < 64 && 0 <= p.y && p.y < 64 {
                            let idx = w.map.xy_idx(p.x, p.y);
                            let mut j: usize = 0;
                            let ghost v0 = v@;
                            while j < w.map.tile_content[idx].len()
                                invariant
                                    w.wf(),
                                    idx < MAPSIZE_COUNT,
                                    j <= w.map.tile_content@[idx as int]@.len(),
                                    v@ == v0 + w.map.tile_content@[idx as int]@.subrange(0, j as int),
                                decreases w.map.tile_content@[idx as int]@.len() - j,
                            {
                                v.push(w.map.tile_content[idx][j]);
                                assert(v@ =~= v0 + w.map.tile_content@[idx as int]@.subrange(0, j as int + 1));
                                j = j + 1;
                            }
                            assert(w.map.tile_content@[idx as int]@.subrange(0, j as int) =~= w.map.tile_content@[idx as int]@);
                        } else {
                            assert(v@ =~= blast_occupants(w.map.tile_content@, blast@.subrange(0, i as int + 1)));
                        }
                        i = i + 1;
                    }
                    assert(blast@.subrange(0, i as int) =~= blast@);
                    v
                } else if 0 <= pt.x && pt.x < 64 && 0 <= pt.y && pt.y < 64 {
                    let idx = w.map.xy_idx(pt.x, pt.y);
                    let mut v: Vec<Entity> = Vec::new();
                    let mut j: usize = 0;
                    while j < w.map.tile_content[idx].len()
                        invariant
                            w.wf(),
                            idx < MAPSIZE_COUNT,
                            j <= w.map.tile_content@[idx as int]@.len(),
                            v@ == w.map.tile_content@[idx as int]@.subrange(0, j as int),
                        decreases w.map.tile_content@[idx as int]@.len() - j,
                    {
                        v.push(w.map.tile_content[idx][j]);
                        assert(v@ =~= w.map.tile_content@[idx as int]@.subrange(0, j as int + 1));
                        j = j + 1;
                    }
                    assert(w.map.tile_content@[idx as int]@.subrange(0, j as int) =~= w.map.tile_content@[idx as int]@);
                    v
                } else {
                    Vec::new()
                }
            },
        }
    }
}

/// What `apply_effects` does to the world, for the intent of slot `user`.
pub open spec fn effects_applied(old: &World, new: &World, user: int, blast: Seq<Point>) -> bool {
    let intent = old.wants_use@[user].unwrap();
    let item = intent.item.id as int;
    let ts = item_targets(old, user, intent, blast);
    let n = old.len() as int;
    if item < n {
        &&& *new == (World { combat_stats: new.combat_stats, suffer_damage: new.suffer_damage, paralyze: new.paralyze, log: new.log, ..*old })
        &&& new.combat_stats@ == match old.provides_healing@[item] {
            Some(h) => heal_all(old.combat_stats@, ts, h.heal_amount as int),
            None => old.combat_stats@,
        }
        &&& new.suffer_damage@.len() == n
        &&& forall|j: int| 0 <= j < n ==> pending(#[trigger] new.suffer_damage@[j]) == pending(old.suffer_damage@[j])
            + match old.inflicts_damage@[item] { Some(d) => damage_queue(ts, j, d.damage), None => Seq::empty() }
        &&& forall|j: int| 0 <= j < n && (old.inflicts_damage@[item] is None || !targeted(ts, j))
            ==> #[trigger] new.suffer_damage@[j] == old.suffer_damage@[j]
        &&& new.paralyze@.len() == n
        &&& forall|j: int| 0 <= j < n ==> #[trigger] new.paralyze@[j] == match old.paralyze@[item] {
            Some(p) => if targeted(ts, j) { Some(Paralyze { turns: p.turns }) } else { old.paralyze@[j] },
            None => old.paralyze@[j],
        }
        &&& new.log.entries@ == old.log.entries@
            + match old.provides_healing@[item] { Some(h) => heal_messages(old, user, item, ts, h.heal_amount), None => Seq::empty() }
            + match old.inflicts_damage@[item] { Some(d) => damage_messages(old, user, ts, d.damage), None => Seq::empty() }
            + match old.paralyze@[item] { Some(_) => paralyze_messages(old, ts), None => Seq::empty() }
    } else {
        *new == *old
    }
}

proof fn lemma_targeted_step(ts: Seq<Entity>, k: int, j: int)
    requires
        0 <= k < ts.len(),
    ensures
        targeted(ts.subrange(0, k + 1), j) == (targeted(ts.subrange(0, k), j) || ts[k].id == j),
{
    let a = ts.subrange(0, k);
    let b = ts.subrange(0, k + 1);
    if targeted(a, j) {
        let q = choose|q: int| 0 <= q < a.len() && (#[trigger] a[q]).id == j;
        assert(b[q] == a[q]);
    }
    if ts[k].id == j {
        assert(b[k] == ts[k]);
    }
    if targeted(b, j) && ts[k].id != j {
        let q = choose|q: int| 0 <= q < b.len() && (#[trigger] b[q]).id == j;
        assert(a[q] == b[q]);
    }
}

impl ItemUseSystem {
    /// Applies the item named by slot `user`'s use intent to its targets, in
    /// this order: healing (capped at max hit points), queued damage, then
    /// paralysis (set, not added). Messages are logged as it goes.
    pub fn apply_effects(&mut self, w: &mut World, user: usize, blast: &Vec<Point>)
        requires
            old(w).wf(),
            user < old(w).len(),
            old(w).wants_use@[user as int] is Some,
        ensures
            final(w).wf(),
            effects_applied(old(w), final(w), user as int, blast@),
    {
        let intent = w.wants_use[user].unwrap();
        let item = intent.item.id;
        let n = w.alive.len();
        if item >= n {
            return;
        }
        let ts = self.collect_targets(w, user, intent, blast);
        let ghost w0 = *w;
        let heal = w.provides_healing[item];
        let dmg = w.inflicts_damage[item];
        let para = w.paralyze[item];
        let is_player = user == w.player_entity.id;

        if let Some(h) = heal {
            let mut k: usize = 0;
            while k < ts.len()
                invariant
                    w.wf(),
                    n == w0.len(),
                    item < n,
                    k <= ts@.len(),
                    ts@ == item_targets(&w0, user as int, intent, blast@),
                    heal == w0.provides_healing@[item as int],
                    is_player == (user == w0.player_entity.id),
                    *w == (World { combat_stats: w.combat_stats, log: w.log, ..w0 }),
                    w.combat_stats@ == heal_all(w0.combat_stats@, ts@.subrange(0, k as int), h.heal_amount as int),
                    w.log.entries@ == w0.log.entries@ + heal_messages(&w0, user as int, item as int, ts@.subrange(0, k as int), h.heal_amount),
                decreases ts@.len() - k,
            {
                let t = ts[k].id;
                assert(ts@.subrange(0, k as int + 1).drop_last() =~= ts@.subrange(0, k as int));
                proof { lemma_heal_all_shape(w0.combat_stats@, ts@.subrange(0, k as int), h.heal_amount as int); }
                if t < n {
                    if let Some(st) = w.combat_stats[t] {
                        let sum: i64 = st.hp as i64 + h.heal_amount as i64;
                        let hp: i32 = if sum >= st.max_hp as i64 { st.max_hp } else if sum <= i32::MIN as i64 { i32::MIN } else { sum as i32 };
                        w.combat_stats.set(t, Some(CombatStats { hp, ..st }));
                        if is_player {
                            if let Some(nm) = &w.names[item] {
                                let entry = GameLog::heal_log(&nm.name, h.heal_amount);
                                w.log.entries.push(entry);
                            }
                        }
                    }
                }
                assert(w.log.entries@ =~= w0.log.entries@ + heal_messages(&w0, user as int, item as int, ts@.subrange(0, k as int + 1), h.heal_amount));
                k = k + 1;
            }
            assert(ts@.subrange(0, k as int) =~= ts@);
        }
        let ghost w1 = *w;
        assert(w1.names == w0.names && w1.player_entity == w0.player_entity);
        assert(w1.log.entries@ == w0.log.entries@
            + match w0.provides_healing@[item as int] { Some(h) => heal_messages(&w0, user as int, item as int, ts@, h.heal_amount), None => Seq::empty() });

        if let Some(d) = dmg {
            let mut k: usize = 0;
            while k < ts.len()
                invariant
                    w.wf(),
                    n == w0.len(),
                    item < n,
                    k <= ts@.len(),
                    ts@ == item_targets(&w0, user as int, intent, blast@),
                    is_player == (user == w0.player_entity.id),
                    *w == (World { suffer_damage: w.suffer_damage, log: w.log, ..w1 }),
                    w.suffer_damage@.len() == n,
                    w.names == w0.names,
                    w.player_entity == w0.player_entity,
                    w.names@.len() == n,
                    forall|j: int| 0 <= j < n ==> pending(#[trigger] w.suffer_damage@[j])
                        == pending(w0.suffer_damage@[j]) + damage_queue(ts@.subrange(0, k as int), j, d.damage),
                    forall|j: int| 0 <= j < n && !targeted(ts@.subrange(0, k as int), j) ==> #[trigger] w.suffer_damage@[j] == w0.suffer_damage@[j],
                    w.log.entries@ == w1.log.entries@ + damage_messages(&w0, user as int, ts@.subrange(0, k as int), d.damage),
                decreases ts@.len() - k,
            {
                let t = ts[k].id;
                let ghost before = *w;
                assert(ts@.subrange(0, k as int + 1).drop_last() =~= ts@.subrange(0, k as int));
                if t < n {
                    SufferDamage::new_damage(&mut w.suffer_damage, Entity { id: t }, d.damage);
                    if is_player {
                        let p = w.player_entity.id;
                        if p < n {
                            if w.names[p].is_some() && w.names[t].is_some() {
                                let pn = match &w.names[p] { Some(x) => x.name.clone(), None => String::new() };
                                let tn = match &w.names[t] { Some(x) => x.name.clone(), None => String::new() };
                                let entry = GameLog::battle_log(&pn, &tn, d.damage);
                                w.log.entries.push(entry);
                            }
                        }
                    }
                }
                assert(w.log.entries@ =~= w1.log.entries@ + damage_messages(&w0, user as int, ts@.subrange(0, k as int + 1), d.damage));
                assert forall|j: int| 0 <= j < n implies pending(#[trigger] w.suffer_damage@[j])
                    == pending(w0.suffer_damage@[j]) + damage_queue(ts@.subrange(0, k as int + 1), j, d.damage) by {
                    if t == j {
                        assert(pending(w0.suffer_damage@[j]) + damage_queue(ts@.subrange(0, k as int + 1), j, d.damage)
                            =~= (pending(w0.suffer_damage@[j]) + damage_queue(ts@.subrange(0, k as int), j, d.damage)).push(d.damage));
                    } else {
                        assert(w.suffer_damage@[j] == before.suffer_damage@[j]);
                    }
                }
                assert forall|j: int| 0 <= j < n && !targeted(ts@.subrange(0, k as int + 1), j)
                    implies #[trigger] w.suffer_damage@[j] == w0.suffer_damage@[j] by {
                    lemma_targeted_step(ts@, k as int, j);
                }
                k = k + 1;
            }
            assert(ts@.subrange(0, k as int) =~= ts@);
        }
        let ghost w2 = *w;
        assert forall|j: int| 0 <= j < n && (w0.inflicts_damage@[item as int] is None || !targeted(ts@, j))
            implies #[trigger] w2.suffer_damage@[j] == w0.suffer_damage@[j] by {}
        assert forall|j: int| 0 <= j < n implies pending(#[trigger] w2.suffer_damage@[j]) == pending(w0.suffer_damage@[j])
            + match w0.inflicts_damage@[item as int] { Some(d) => damage_queue(ts@, j, d.damage), None => Seq::empty() } by {
            if w0.inflicts_damage@[item as int] is None {
                assert(pending(w0.suffer_damage@[j]) + Seq::<i32>::empty() =~= pending(w0.suffer_damage@[j]));
            }
        }

        if let Some(pz) = para {
            let mut k: usize = 0;
            while k < ts.len()
                invariant
                    w.wf(),
                    n == w0.len(),
                    item < n,
                    k <= ts@.len(),
                    ts@ == item_targets(&w0, user as int, intent, blast@),
                    *w == (World { paralyze: w.paralyze, log: w.log, ..w2 }),
                    w.paralyze@.len() == n,
                    w.names == w0.names,
                    w.names@.len() == n,
                    forall|j: int| 0 <= j < n ==> #[trigger] w.paralyze@[j]
                        == if targeted(ts@.subrange(0, k as int), j) { Some(Paralyze { turns: pz.turns }) } else { w0.paralyze@[j] },
                    w.log.entries@ == w2.log.entries@ + paralyze_messages(&w0, ts@.subrange(0, k as int)),
                decreases ts@.len() - k,
            {
                let t = ts[k].id;
                assert(ts@.subrange(0, k as int + 1).drop_last() =~= ts@.subrange(0, k as int));
                let ghost before = *w;
                if t < n {
                    w.paralyze.set(t, Some(Paralyze { turns: pz.turns }));
                    if let Some(nm) = &w.names[t] {
                        let entry = GameLog::paralyze_log(&nm.name);
                        w.log.entries.push(entry);
                    }
                }
                assert(w.log.entries@ =~= w2.log.entries@ + paralyze_messages(&w0, ts@.subrange(0, k as int + 1)));
                assert forall|j: int| 0 <= j < n implies #[trigger] w.paralyze@[j]
                    == if targeted(ts@.subrange(0, k as int + 1), j) { Some(Paralyze { turns: pz.turns }) } else { w0.paralyze@[j] } by {
                    lemma_targeted_step(ts@, k as int, j);
                }
                k = k + 1;
            }
            assert(ts@.subrange(0, k as int) =~= ts@);
        }
        assert(w.log.entries@ =~= w0.log.entries@
            + match w0.provides_healing@[item as int] { Some(h) => heal_messages(&w0, user as int, item as int, ts@, h.heal_amount), None => Seq::empty() }
            + match w0.inflicts_damage@[item as int] { Some(d) => damage_messages(&w0, user as int, ts@, d.damage), None => Seq::empty() }
            + match w0.paralyze@[item as int] { Some(_) => paralyze_messages(&w0, ts@), None => Seq::empty() });
    }
}

/// Whether slot `u`'s use intent names `item`.
pub open spec fn uses(w: &World, u: int, item: int) -> bool {
    w.wants_use@[u] matches Some(i) && i.item.id == item
}

/// The blast handed to the intent of slot `u`: its entry, or none.
pub open spec fn blast_for(blasts: Seq<Vec<Point>>, u: int) -> Seq<Point> {
    if u < blasts.len() { blasts[u]@ } else { Seq::empty() }
}

/// One step of the use pass: the intent of slot `u`, if there is one, applied.
pub open spec fn use_step(before: World, after: World, u: int, blasts: Seq<Vec<Point>>) -> bool {
    if before.wants_use@[u] is Some {
        effects_applied(&before, &after, u, blast_for(blasts, u))
    } else {
        after == before
    }
}

/// `new` is `old` with the use intents of slots below `k` applied in slot order.
pub open spec fn uses_applied(old: World, new: World, blasts: Seq<Vec<Point>>, k: int) -> bool
    decreases k,
{
    if k <= 0 {
        new == old
    } else {
        exists|mid: World| uses_applied(old, mid, blasts, k - 1) && #[trigger] use_step(mid, new, k - 1, blasts)
    }
}

proof fn lemma_uses_step(old: World, mid: World, new: World, blasts: Seq<Vec<Point>>, k: int)
    requires
        k >= 0,
        uses_applied(old, mid, blasts, k),
        use_step(mid, new, k, blasts),
    ensures
        uses_applied(old, new, blasts, k + 1),
{
    assert(use_step(mid, new, (k + 1) - 1, blasts));
}

/// Whether the use pass deletes slot `j`: a consumable some intent names.
pub open spec fn used_up(w: &World, j: int) -> bool {
    used_item(w, j) && w.consumables@[j] is Some
}

/// Whether some slot's use intent names `item`.
pub open spec fn used_item(w: &World, item: int) -> bool {
    exists|u: int| 0 <= u < w.len() && #[trigger] uses(w, u, item)
}

impl ItemUseSystem {
    /// Where and how wide a blast the intent of slot `user` asks for: its
    /// target point and the item's radius, when the item has an area effect.
    pub fn blast_request(&self, w: &World, user: usize) -> (r: Option<(Point, i32)>)
        requires
            w.wf(),
        ensures
            r == (if user < w.len() && (w.wants_use@[user as int] matches Some(u) && u.target is Some
                && u.item.id < w.len() && w.aoe@[u.item.id as int] is Some) {
                Some((w.wants_use@[user as int].unwrap().target.unwrap(), w.aoe@[w.wants_use@[user as int].unwrap().item.id as int].unwrap().radius))
            } else {
                None
            }),
    {
        if user >= w.alive.len() {
            return None;
        }
        match w.wants_use[user] {
            Some(u) => match u.target {
                Some(pt) => if u.item.id < w.alive.len() {
                    match w.aoe[u.item.id] {
                        Some(a) => Some((pt, a.radius)),
                        None => None,
                    }
                } else {
                    None
                },
                None => None,
            },
            None => None,
        }
    }

    /// Resolves every use intent in slot order (`blasts[i]` is the blast
    /// area for slot `i`'s intent; missing entries count as empty), then
    /// clears all use intents and deletes the consumable items that were
    /// used. Every other slot ends as the intents left it, alive or not as
    /// before: an item that is not consumable survives its use.
    pub fn run(&mut self, w: &mut World, blasts: &Vec<Vec<Point>>)
        requires
            old(w).wf(),
        ensures
            final(w).wf(),
            final(w).len() == old(w).len(),
            final(w).map == old(w).map,
            final(w).player_entity == old(w).player_entity,
            final(w).player_pos == old(w).player_pos,
            forall|j: int| 0 <= j < old(w).len() ==> (#[trigger] final(w).wants_use@[j]) is None,
            forall|j: int| 0 <= j < old(w).len() && used_up(old(w), j) ==> World::slot_cleared(final(w), j),
            forall|j: int| 0 <= j < old(w).len() && !used_up(old(w), j) ==> #[trigger] final(w).alive@[j] == old(w).alive@[j],
            exists|mid: World| uses_applied(*old(w), mid, blasts@, old(w).len() as int)
                && final(w).log == mid.log
                && forall|j: int| 0 <= j < old(w).len() && !used_up(old(w), j) ==> #[trigger] World::slot_same_but_use(final(w), &mid, j),
    {
        let n = w.alive.len();
        let empty: Vec<Point> = Vec::new();
        let mut used: Vec<usize> = Vec::new();
        let mut i: usize = 0;
        while i < n
            invariant
                n == old(w).len(),
                i <= n,
                w.wf(),
                w.len() == n,
                w.map == old(w).map,
                w.player_entity == old(w).player_entity,
                w.player_pos == old(w).player_pos,
                w.wants_use == old(w).wants_use,
                w.consumables == old(w).consumables,
                empty@.len() == 0,
                forall|k: int| 0 <= k < used@.len() ==> (#[trigger] used@[k]) < n && old(w).consumables@[used@[k] as int] is Some
                    && used_item(old(w), used@[k] as int),
                forall|j: int| 0 <= j < n && old(w).consumables@[j] is Some
                    && (exists|u: int| 0 <= u < i && #[trigger] uses(old(w), u, j))
                    ==> exists|k: int| 0 <= k < used@.len() && (#[trigger] used@[k]) == j,
                w.alive == old(w).alive,
                uses_applied(*old(w), *w, blasts@, i as int),
            decreases n - i,
        {
            let ghost u0 = used@;
            let ghost before = *w;
            if let Some(intent) = w.wants_use[i] {
                let blast = if i < blasts.len() { &blasts[i] } else { &empty };
                assert(blast@ == blast_for(blasts@, i as int));
                self.apply_effects(w, i, blast);
                let item = intent.item.id;
                if item < n && w.consumables[item].is_some() {
                    used.push(item);
                    assert(uses(old(w), i as int, item as int));
                }
            }
            assert forall|j: int| 0 <= j < n && old(w).consumables@[j] is Some
                && (exists|u: int| 0 <= u < i + 1 && #[trigger] uses(old(w), u, j))
                implies exists|k: int| 0 <= k < used@.len() && (#[trigger] used@[k]) == j by {
                let u = choose|u: int| 0 <= u < i + 1 && #[trigger] uses(old(w), u, j);
                if u < i {
                    let k = choose|k: int| 0 <= k < u0.len() && (#[trigger] u0[k]) == j;
                    assert(used@[k] == u0[k]);
                } else {
                    assert(used@[used@.len() - 1] == j);
                }
            }
            assert forall|k: int| 0 <= k < used@.len() implies (#[trigger] used@[k]) < n && old(w).consumables@[used@[k] as int] is Some
                && used_item(old(w), used@[k] as int) by {
                if k < u0.len() {
                    assert(used@[k] == u0[k]);
                } else {
                    assert(uses(old(w), i as int, used@[k] as int));
                }
            }
            assert(use_step(before, *w, i as int, blasts@));
            assert(uses_applied(*old(w), before, blasts@, i as int));
            proof { lemma_uses_step(*old(w), before, *w, blasts@, i as int); }
            i = i + 1;
        }
        let ghost mid = *w;
        let mut k: usize = 0;
        while k < n
            invariant
                n == old(w).len(),
                k <= n,
                w.wf(),
                w.len() == n,
                w.map == old(w).map,
                w.player_entity == old(w).player_entity,
                w.player_pos == old(w).player_pos,
                *w == (World { wants_use: w.wants_use, ..mid }),
                forall|j: int| 0 <= j < k ==> (#[trigger] w.wants_use@[j]) is None,
                forall|q: int| 0 <= q < used@.len() ==> (#[trigger] used@[q]) < n,
            decreases n - k,
        {
            w.wants_use.set(k, None);
            k = k + 1;
        }
        let mut q: usize = 0;
        while q < used.len()
            invariant
                n == old(w).len(),
                q <= used@.len(),
                w.wf(),
                w.len() == n,
                w.map == old(w).map,
                w.player_entity == old(w).player_entity,
                w.player_pos == old(w).player_pos,
                w.log == mid.log,
                forall|j: int| 0 <= j < n ==> (#[trigger] w.wants_use@[j]) is None,
                forall|r: int| 0 <= r < used@.len() ==> (#[trigger] used@[r]) < n
                    && old(w).consumables@[used@[r] as int] is Some && used_item(old(w), used@[r] as int),
                forall|r: int| 0 <= r < q ==> World::slot_cleared(w, (#[trigger] used@[r]) as int),
                forall|j: int| 0 <= j < n && !used_up(old(w), j) ==> #[trigger] World::slot_same_but_use(w, &mid, j),
                mid.alive == old(w).alive,
            decreases used@.len() - q,
        {
            let ghost before = *w;
            w.delete_entity(Entity { id: used[q] });
            assert forall|r: int| 0 <= r < q + 1 implies World::slot_cleared(w, (#[trigger] used@[r]) as int) by {
                if r < q && used@[r] != used@[q as int] {
                    assert(World::slot_same(w, &before, used@[r] as int));
                }
            }
            assert forall|j: int| 0 <= j < n implies (#[trigger] w.wants_use@[j]) is None by {
                if j != used@[q as int] {
                    assert(World::slot_same(w, &before, j));
                }
            }
            assert forall|j: int| 0 <= j < n && !used_up(old(w), j) implies #[trigger] World::slot_same_but_use(w, &mid, j) by {
                assert(j != used@[q as int]);
                assert(World::slot_same(w, &before, j));
                assert(World::slot_same_but_use(&before, &mid, j));
            }
            q = q + 1;
        }
        assert forall|j: int| 0 <= j < old(w).len() && used_item(old(w), j) && old(w).consumables@[j] is Some
            implies World::slot_cleared(w, j) by {
            let u = choose|u: int| 0 <= u < old(w).len() && #[trigger] uses(old(w), u, j);
            let r = choose|r: int| 0 <= r < used@.len() && (#[trigger] used@[r]) == j;
        }
        assert forall|j: int| 0 <= j < old(w).len() && !used_up(old(w), j) implies #[trigger] w.alive@[j] == old(w).alive@[j] by {
            assert(World::slot_same_but_use(w, &mid, j));
        }
        assert(uses_applied(*old(w), mid, blasts@, old(w).len() as int));
    }
}

/// Positions after the pickups of slots below `k`: each picked item leaves the map.
pub open spec fn pickup_positions(w: &World, k: int) -> Seq<Option<Position>>
    decreases k,
{
    if k <= 0 {
        w.positions@
    } else {
        let prev = pickup_positions(w, k - 1);
        match w.wants_pickup@[k - 1] {
            Some(p) => if p.item.id < w.len() { prev.update(p.item.id as int, None) } else { prev },
            None => prev,
        }
    }
}

/// Backpack links after the pickups of slots below `k`: each picked item belongs to its collector.
pub open spec fn pickup_backpacks(w: &World, k: int) -> Seq<Option<InBackpack>>
    decreases k,
{
    if k <= 0 {
        w.in_backpacks@
    } else {
        let prev = pickup_backpacks(w, k - 1);
        match w.wants_pickup@[k - 1] {
            Some(p) => if p.item.id < w.len() { prev.update(p.item.id as int, Some(InBackpack { owner: p.collected_by })) } else { prev },
            None => prev,
        }
    }
}

pub open spec fn pickup_messages(w: &World, k: int) -> Seq<LogEntry>
    decreases k,
{
    if k <= 0 {
        Seq::empty()
    } else {
        let prev = pickup_messages(w, k - 1);
        match w.wants_pickup@[k - 1] {
            Some(p) => if p.item.id < w.len() && p.collected_by == w.player_entity && w.names@[p.item.id as int] is Some {
                prev.push(LogEntry::GetItem { name: w.names@[p.item.id as int].unwrap().name })
            } else {
                prev
            },
            None => prev,
        }
    }
}

/// Moves picked-up items into their collectors' backpacks.
pub struct ItemCollectionSystem {}

impl ItemCollectionSystem {
    /// Each pickup intent, in slot order, takes its item off the map and
    /// links it to the collector; the player's pickups are logged. All pickup
    /// intents are then cleared.
    pub fn run(&mut self, w: &mut World)
        requires
            old(w).wf(),
        ensures
            final(w).wf(),
            *final(w) == (World { positions: final(w).positions, in_backpacks: final(w).in_backpacks,
                wants_pickup: final(w).wants_pickup, log: final(w).log, ..*old(w) }),
            final(w).positions@ == pickup_positions(old(w), old(w).len() as int),
            final(w).in_backpacks@ == pickup_backpacks(old(w), old(w).len() as int),
            final(w).log.entries@ == old(w).log.entries@ + pickup_messages(old(w), old(w).len() as int),
            forall|j: int| 0 <= j < old(w).len() ==> (#[trigger] final(w).wants_pickup@[j]) is None,
    {
        let n = w.alive.len();
        let mut i: usize = 0;
        while i < n
            invariant
                n == old(w).len(),
                i <= n,
                w.wf(),
                *w == (World { positions: w.positions, in_backpacks: w.in_backpacks, log: w.log, ..*old(w) }),
                w.positions@ == pickup_positions(old(w), i as int),
                w.in_backpacks@ == pickup_backpacks(old(w), i as int),
                w.log.entries@ == old(w).log.entries@ + pickup_messages(old(w), i as int),
            decreases n - i,
        {
            if let Some(p) = w.wants_pickup[i] {
                let item = p.item.id;
                if item < n {
                    w.positions.set(item, None);
                    w.in_backpacks.set(item, Some(InBackpack { owner: p.collected_by }));
                    if p.collected_by == w.player_entity {
                        if let Some(nm) = &w.names[item] {
                            let entry = GameLog::get_item_log(&nm.name);
                            w.log.entries.push(entry);
                        }
                    }
                }
            }
            assert(w.log.entries@ =~= old(w).log.entries@ + pickup_messages(old(w), i as int + 1));
            i = i + 1;
        }
        let mut k: usize = 0;
        while k < n
            invariant
                n == old(w).len(),
                k <= n,
                w.wf(),
                *w == (World { positions: w.positions, in_backpacks: w.in_backpacks, wants_pickup: w.wants_pickup, log: w.log, ..*old(w) }),
                w.positions@ == pickup_positions(old(w), n as int),
                w.in_backpacks@ == pickup_backpacks(old(w), n as int),
                w.log.entries@ == old(w).log.entries@ + pickup_messages(old(w), n as int),
                forall|j: int| 0 <= j < k ==> (#[trigger] w.wants_pickup@[j]) is None,
            decreases n - k,
        {
            w.wants_pickup.set(k, None);
            k = k + 1;
        }
    }
}

/// Positions after the drops of slots below `k`: a dropped item lands where
/// its dropper stands (droppers without a position drop nothing).
pub open spec fn drop_positions(w: &World, k: int) -> Seq<Option<Position>>
    decreases k,
{
    if k <= 0 {
        w.positions@
    } else {
        let prev = drop_positions(w, k - 1);
        match (w.drop_items@[k - 1], prev[k - 1]) {
            (Some(d), Some(pos)) => if d.item.id < w.len() { prev.update(d.item.id as int, Some(pos)) } else { prev },
            _ => prev,
        }
    }
}

pub open spec fn drop_backpacks(w: &World, k: int) -> Seq<Option<InBackpack>>
    decreases k,
{
    if k <= 0 {
        w.in_backpacks@
    } else {
        let prev = drop_backpacks(w, k - 1);
        match (w.drop_items@[k - 1], drop_positions(w, k - 1)[k - 1]) {
            (Some(d), Some(_)) => if d.item.id < w.len() { prev.update(d.item.id as int, None) } else { prev },
            _ => prev,
        }
    }
}

pub open spec fn drop_messages(w: &World, k: int) -> Seq<LogEntry>
    decreases k,
{
    if k <= 0 {
        Seq::empty()
    } else {
        let prev = drop_messages(w, k - 1);
        match (w.drop_items@[k - 1], drop_positions(w, k - 1)[k - 1]) {
            (Some(d), Some(_)) => if d.item.id < w.len() && k - 1 == w.player_entity.id && w.names@[d.item.id as int] is Some {
                prev.push(LogEntry::DropItem { name: w.names@[d.item.id as int].unwrap().name })
            } else {
                prev
            },
            _ => prev,
        }
    }
}

/// Puts dropped items back on the map.
pub struct ItemDropSystem {}

impl ItemDropSystem {
    /// Each drop intent, in slot order, places its item on the dropper's tile
    /// and unlinks it from the backpack; the player's drops are logged. All
    /// drop intents are then cleared.
    pub fn run(&mut self, w: &mut World)
        requires
            old(w).wf(),
        ensures
            final(w).wf(),
            *final(w) == (World { positions: final(w).positions, in_backpacks: final(w).in_backpacks,
                drop_items: final(w).drop_items, log: final(w).log, ..*old(w) }),
            final(w).positions@ == drop_positions(old(w), old(w).len() as int),
            final(w).in_backpacks@ == drop_backpacks(old(w), old(w).len() as int),
            final(w).log.entries@ == old(w).log.entries@ + drop_messages(old(w), old(w).len() as int),
            forall|j: int| 0 <= j < old(w).len() ==> (#[trigger] final(w).drop_items@[j]) is None,
    {
        let n = w.alive.len();
        let mut i: usize = 0;
        while i < n
            invariant
                n == old(w).len(),
                i <= n,
                w.wf(),
                *w == (World { positions: w.positions, in_backpacks: w.in_backpacks, log: w.log, ..*old(w) }),
                w.positions@ == drop_positions(old(w), i as int),
                w.in_backpacks@ == drop_backpacks(old(w), i as int),
                w.log.entries@ == old(w).log.entries@ + drop_messages(old(w), i as int),
            decreases n - i,
        {
            if let Some(d) = w.drop_items[i] {
                if let Some(pos) = w.positions[i] {
                    let item = d.item.id;
                    if item < n {
                        w.positions.set(item, Some(pos));
                        w.in_backpacks.set(item, None);
                        if i == w.player_entity.id {
                            if let Some(nm) = &w.names[item] {
                                let entry = GameLog::drop_item_log(&nm.name);
                                w.log.entries.push(entry);
                            }
                        }
                    }
                }
            }
            assert(w.log.entries@ =~= old(w).log.entries@ + drop_messages(old(w), i as int + 1));
            i = i + 1;
        }
        let mut k: usize = 0;
        while k < n
            invariant
                n == old(w).len(),
                k <= n,
                w.wf(),
                *w == (World { positions: w.positions, in_backpacks: w.in_backpacks, drop_items: w.drop_items, log: w.log, ..*old(w) }),
                w.positions@ == drop_positions(old(w), n as int),
                w.in_backpacks@ == drop_backpacks(old(w), n as int),
                w.log.entries@ == old(w).log.entries@ + drop_messages(old(w), n as int),
                forall|j: int| 0 <= j < k ==> (#[trigger] w.drop_items@[j]) is None,
            decreases n - k,
        {
            w.drop_items.set(k, None);
            k = k + 1;
        }
    }
}

proof fn lemma_occupants(w: &World, t: int, k: int)
    requires
        0 <= k <= w.len(),
        k <= usize::MAX,
    ensures
        forall|e: Entity| occupants(w, t, k).contains(e) <==> (e.id < k && tile_of(w, e.id as int) == Some(t)),
    decreases k,
{
    if k > 0 {
        lemma_occupants(w, t, k - 1);
        let prev = occupants(w, t, k - 1);
        let cur = occupants(w, t, k);
        assert forall|e: Entity| cur.contains(e) <==> (e.id < k && tile_of(w, e.id as int) == Some(t)) by {
            if tile_of(w, k - 1) == Some(t) {
                assert(cur == prev.push(Entity { id: (k - 1) as usize }));
                if cur.contains(e) {
                    let q = choose|q: int| 0 <= q < cur.len() && cur[q] == e;
                    if q < prev.len() {
                        assert(prev[q] == cur[q]);
                        assert(prev.contains(e));
                    }
                }
                if e.id < k && tile_of(w, e.id as int) == Some(t) {
                    if e.id == k - 1 {
                        assert(cur[cur.len() - 1] == e);
                    } else {
                        assert(prev.contains(e));
                        let q = choose|q: int| 0 <= q < prev.len() && prev[q] == e;
                        assert(cur[q] == prev[q]);
                    }
                }
            } else {
                assert(cur == prev);
                if cur.contains(e) {
                    assert(prev.contains(e));
                }
                if e.id < k && tile_of(w, e.id as int) == Some(t) {
                    assert(e.id != k - 1);
                    assert(prev.contains(e));
                }
            }
        }
    }
}

/// Whether `t` is the tile index of an on-map point of `blast`.
pub open spec fn blast_covers(blast: Seq<Point>, t: int) -> bool {
    exists|k: int| 0 <= k < blast.len() && in_bounds((#[trigger] blast[k]).x as int, blast[k].y as int)
        && idx_of(blast[k].x as int, blast[k].y as int) == t
}

proof fn lemma_blast_occupants(w: &World, blast: Seq<Point>)
    requires
        w.wf(),
        w.len() <= usize::MAX,
        forall|t: int| 0 <= t < MAPSIZE_COUNT ==> (#[trigger] w.map.tile_content@[t])@ == occupants(w, t, w.len() as int),
    ensures
        forall|e: Entity| blast_occupants(w.map.tile_content@, blast).contains(e) <==> (e.id < w.len()
            && (exists|t: int| tile_of(w, e.id as int) == Some(t) && #[trigger] blast_covers(blast, t))),
    decreases blast.len(),
{
    if blast.len() > 0 {
        let rest = blast.drop_last();
        lemma_blast_occupants(w, rest);
        let p = blast.last();
        let prev = blast_occupants(w.map.tile_content@, rest);
        let here = if in_bounds(p.x as int, p.y as int) { w.map.tile_content@[idx_of(p.x as int, p.y as int)]@ } else { Seq::empty() };
        let pt = idx_of(p.x as int, p.y as int);
        if in_bounds(p.x as int, p.y as int) {
            assert(0 <= pt < MAPSIZE_COUNT) by (nonlinear_arith)
                requires 0 <= p.x < 64, 0 <= p.y < 64, pt == p.y * 64 + p.x;
            lemma_occupants(w, pt, w.len() as int);
        }
        assert forall|e: Entity| blast_occupants(w.map.tile_content@, blast).contains(e) <==> (e.id < w.len()
            && (exists|t: int| tile_of(w, e.id as int) == Some(t) && #[trigger] blast_covers(blast, t))) by {
            let all = blast_occupants(w.map.tile_content@, blast);
            assert(all == prev + here);
            if all.contains(e) {
                let q = choose|q: int| 0 <= q < all.len() && all[q] == e;
                if q < prev.len() {
                    assert(prev[q] == e);
                    assert(prev.contains(e));
                    let t = choose|t: int| tile_of(w, e.id as int) == Some(t) && #[trigger] blast_covers(rest, t);
                    let k = choose|k: int| 0 <= k < rest.len() && in_bounds((#[trigger] rest[k]).x as int, rest[k].y as int)
                        && idx_of(rest[k].x as int, rest[k].y as int) == t;
                    assert(blast[k] == rest[k]);
                    assert(blast_covers(blast, t));
                } else {
                    assert(here[q - prev.len()] == e);
                    assert(here.contains(e));
                    assert(in_bounds(p.x as int, p.y as int));
                    assert(tile_of(w, e.id as int) == Some(pt));
                    assert(blast[blast.len() - 1] == p);
                    assert(blast_covers(blast, pt));
                }
            }
            if e.id < w.len() && (exists|t: int| tile_of(w, e.id as int) == Some(t) && #[trigger] blast_covers(blast, t)) {
                let t = choose|t: int| tile_of(w, e.id as int) == Some(t) && #[trigger] blast_covers(blast, t);
                let k = choose|k: int| 0 <= k < blast.len() && in_bounds((#[trigger] blast[k]).x as int, blast[k].y as int)
                    && idx_of(blast[k].x as int, blast[k].y as int) == t;
                if k < rest.len() {
                    assert(rest[k] == blast[k]);
                    assert(blast_covers(rest, t));
                    assert(prev.contains(e));
                    let q = choose|q: int| 0 <= q < prev.len() && prev[q] == e;
                    assert(all[q] == e);
                } else {
                    assert(t == pt);
                    assert(0 <= e.id < w.len());
                    assert(here == occupants(w, pt, w.len() as int));
                    assert(here.contains(e));
                    let q = choose|q: int| 0 <= q < here.len() && here[q] == e;
                    assert(all[prev.len() + q] == e);
                }
            }
        }
    }
}

/// With a freshly built occupancy index, an area item used at a point
/// affects exactly the entities standing on the on-map tiles of its blast:
/// every one of them, and nobody else.
pub proof fn lemma_area_targets(w: &World, user: int, intent: WantsToUseItem, blast: Seq<Point>)
    requires
        w.wf(),
        w.len() <= usize::MAX,
        intent.target is Some,
        intent.item.id < w.len(),
        w.aoe@[intent.item.id as int] is Some,
        forall|t: int| 0 <= t < MAPSIZE_COUNT ==> (#[trigger] w.map.tile_content@[t])@ == occupants(w, t, w.len() as int),
    ensures
        forall|e: Entity| item_targets(w, user, intent, blast).contains(e) <==> (e.id < w.len()
            && (exists|t: int| tile_of(w, e.id as int) == Some(t) && #[trigger] blast_covers(blast, t))),
{
    lemma_blast_occupants(w, blast);
}


proof fn lemma_heal_all_untouched(stats: Seq<Option<CombatStats>>, ts: Seq<Entity>, amount: int, j: int)
    requires
        0 <= j < stats.len(),
        !targeted(ts, j),
    ensures
        heal_all(stats, ts, amount)[j] == stats[j],
    decreases ts.len(),
{
    if ts.len() > 0 {
        assert(!targeted(ts.drop_last(), j)) by {
            if targeted(ts.drop_last(), j) {
                let k = choose|k: int| 0 <= k < ts.drop_last().len() && (#[trigger] ts.drop_last()[k]).id == j;
                assert(ts[k] == ts.drop_last()[k]);
            }
        }
        lemma_heal_all_untouched(stats, ts.drop_last(), amount, j);
        lemma_heal_all_shape(stats, ts.drop_last(), amount);
        assert(ts[ts.len() - 1].id != j);
    }
}

/// An item use touches nobody outside its target set: every other entity
/// keeps its hit points, its queued damage and its paralysis.
pub proof fn lemma_untargeted_unaffected(old: &World, new: &World, user: int, blast: Seq<Point>, j: int)
    requires
        old.wf(),
        0 <= user < old.len(),
        old.wants_use@[user] is Some,
        effects_applied(old, new, user, blast),
        0 <= j < old.len(),
        !targeted(item_targets(old, user, old.wants_use@[user].unwrap(), blast), j),
    ensures
        new.combat_stats@[j] == old.combat_stats@[j],
        new.suffer_damage@[j] == old.suffer_damage@[j],
        new.paralyze@[j] == old.paralyze@[j],
{
    let intent = old.wants_use@[user].unwrap();
    let ts = item_targets(old, user, intent, blast);
    if intent.item.id < old.len() {
        if old.provides_healing@[intent.item.id as int] is Some {
            lemma_heal_all_untouched(old.combat_stats@, ts, old.provides_healing@[intent.item.id as int].unwrap().heal_amount as int, j);
        }
    }
}

} // verus!
