use vstd::prelude::*;
use crate::component::Entity;
use crate::geom::{Point, dist_sq};
use crate::map::{GameMap, idx_of, in_bounds, MAPSIZE_COUNT};
use crate::world::World;

verus! {

/// Whether `p` may be seen from `from` at `range`: both on the map and no
/// farther apart than `range`.
pub open spec fn within_view(p: Point, from: Point, range: int) -> bool {
    in_bounds(p.x as int, p.y as int) && in_bounds(from.x as int, from.y as int)
        && range >= 0 && dist_sq(p, from) <= range * range
}

/// The points of a field-of-view result that lie on the map and within
/// range, in the order given.
pub open spec fn clip_view(fov: Seq<Point>, from: Point, range: int) -> Seq<Point>
    decreases fov.len(),
{
    if fov.len() == 0 {
        Seq::empty()
    } else if within_view(fov.last(), from, range) {
        clip_view(fov.drop_last(), from, range).push(fov.last())
    } else {
        clip_view(fov.drop_last(), from, range)
    }
}

/// Whether tile index `t` is one of the points of `s`.
pub open spec fn covers(s: Seq<Point>, t: int) -> bool {
    exists|k: int| 0 <= k < s.len() && idx_of((#[trigger] s[k]).x as int, s[k].y as int) == t
}

proof fn lemma_clip_in_view(fov: Seq<Point>, from: Point, range: int)
    ensures
        forall|k: int| 0 <= k < clip_view(fov, from, range).len()
            ==> within_view(#[trigger] clip_view(fov, from, range)[k], from, range),
    decreases fov.len(),
{
    if fov.len() > 0 {
        lemma_clip_in_view(fov.drop_last(), from, range);
        let c = clip_view(fov.drop_last(), from, range);
        if within_view(fov.last(), from, range) {
            assert forall|k: int| 0 <= k < c.len() + 1 implies within_view(#[trigger] c.push(fov.last())[k], from, range) by {
                if k < c.len() {
                    assert(c.push(fov.last())[k] == c[k]);
                }
            }
        }
    }
}

/// Every tile kept in a viewshed is on the map and within the viewer's range.
pub proof fn lemma_view_within_range(fov: Seq<Point>, from: Point, range: int, k: int)
    requires
        0 <= k < clip_view(fov, from, range).len(),
    ensures
        dist_sq(clip_view(fov, from, range)[k], from) <= range * range,
        in_bounds(clip_view(fov, from, range)[k].x as int, clip_view(fov, from, range)[k].y as int),
{
    lemma_clip_in_view(fov, from, range);
}

fn in_view(p: Point, from: Point, range: i32) -> (r: bool)
    ensures
        r == within_view(p, from, range as int),
{
    if !(0 <= p.x && p.x < 64 && 0 <= p.y && p.y < 64 && 0 <= from.x && from.x < 64 && 0 <= from.y && from.y < 64) {
        return false;
    }
    if range < 0 {
        return false;
    }
    let d = crate::geom::distance_sq(p, from);
    assert(0 <= (range as int) * (range as int) <= 0x4000_0000_0000_0000) by (nonlinear_arith)
        requires 0 <= range <= i32::MAX;
    let r2: i64 = range as i64 * range as i64;
    d <= r2
}

/// Keeps the points of `fov` that lie on the map and within `range` of `from`.
pub fn clip_field_of_view(fov: &Vec<Point>, from: Point, range: i32) -> (r: Vec<Point>)
    ensures
        r@ == clip_view(fov@, from, range as int),
{
    let mut out: Vec<Point> = Vec::new();
    let mut i: usize = 0;
    while i < fov.len()
        invariant
            i <= fov@.len(),
            out@ == clip_view(fov@.subrange(0, i as int), from, range as int),
        decreases fov@.len() - i,
    {
        let p = fov[i];
        assert(fov@.subrange(0, i as int + 1).drop_last() =~= fov@.subrange(0, i as int));
        if in_view(p, from, range) {
            out.push(p);
        }
        i = i + 1;
    }
    assert(fov@.subrange(0, i as int) =~= fov@);
    out
}

/// What `apply_view` does to the world for entity `e` and field of view `fov`.
pub open spec fn view_applied(old: &World, new: &World, e: Entity, fov: Seq<Point>) -> bool {
    &&& new.wf()
    &&& {
        let i = e.id as int;
        if e.id < old.len() && old.positions@[i] is Some
            && (old.viewsheds@[i] matches Some(v) && v.dirty) {
            let from = Point { x: old.positions@[i].unwrap().x, y: old.positions@[i].unwrap().y };
            let v = old.viewsheds@[i].unwrap();
            let seen = clip_view(fov, from, v.range as int);
            &&& new.viewsheds@.len() == old.viewsheds@.len()
            &&& new.viewsheds@[i] matches Some(nv) && nv.visible_tiles@ == seen && nv.range == v.range && !nv.dirty
            &&& forall|j: int| 0 <= j < old.len() && j != i ==> #[trigger] new.viewsheds@[j] == old.viewsheds@[j]
            &&& if old.players@[i] is Some {
                &&& *new == (World { viewsheds: new.viewsheds, map: new.map, ..*old })
                &&& new.map == (GameMap { revealed_tiles: new.map.revealed_tiles, visible_tiles: new.map.visible_tiles, ..old.map })
                &&& forall|t: int| 0 <= t < MAPSIZE_COUNT ==> #[trigger] new.map.visible_tiles@[t] == covers(seen, t)
                &&& forall|t: int| 0 <= t < MAPSIZE_COUNT ==> #[trigger] new.map.revealed_tiles@[t] == (old.map.revealed_tiles@[t] || covers(seen, t))
            } else {
                *new == (World { viewsheds: new.viewsheds, ..*old })
            }
        } else {
            *new == *old
        }
    }
}

/// Recomputing a view without moving gives the same tiles: after one
/// computation, marking the view dirty again and recomputing it from the
/// same field of view leaves the visible set as it was.
pub proof fn lemma_recompute_same_view(w0: &World, w1: &World, w2: &World, w3: &World, e: Entity, fov: Seq<Point>)
    requires
        w0.wf(),
        view_applied(w0, w1, e, fov),
        e.id < w0.len(),
        w0.positions@[e.id as int] is Some,
        w0.viewsheds@[e.id as int] matches Some(v) && v.dirty,
        w2.wf(),
        w2.positions == w1.positions,
        w2.viewsheds@.len() == w1.viewsheds@.len(),
        w2.viewsheds@[e.id as int] matches Some(v) && v.dirty
            && v.range == w1.viewsheds@[e.id as int].unwrap().range,
        view_applied(w2, w3, e, fov),
    ensures
        w3.viewsheds@[e.id as int].unwrap().visible_tiles@ == w1.viewsheds@[e.id as int].unwrap().visible_tiles@,
{
}

/// Recomputes viewsheds from field-of-view results.
pub struct VisibilitySystem {}

impl VisibilitySystem {
    /// The origin and range from which entity `e`'s view must be recomputed,
    /// if it has a position and a viewshed marked dirty.
    pub fn needs_view(&self, w: &World, e: Entity) -> (r: Option<(Point, i32)>)
        requires
            w.wf(),
        ensures
            r == (if e.id < w.len() && w.positions@[e.id as int] is Some
                && (w.viewsheds@[e.id as int] matches Some(v) && v.dirty) {
                Some((Point { x: w.positions@[e.id as int].unwrap().x, y: w.positions@[e.id as int].unwrap().y },
                    w.viewsheds@[e.id as int].unwrap().range))
            } else {
                None
            }),
    {
        if e.id >= w.alive.len() {
            return None;
        }
        match (&w.positions[e.id], &w.viewsheds[e.id]) {
            (Some(p), Some(v)) => if v.dirty { Some((p.to_point(), v.range)) } else { None },
            _ => None,
        }
    }

    /// Stores the view of entity `e` computed as `fov` from its position:
    /// the viewshed keeps the points on the map within its range and is no
    /// longer dirty. For the player, those tiles become revealed and are
    /// exactly the map's visible tiles. Does nothing unless `e` has a
    /// position and a dirty viewshed.
    pub fn apply_view(&mut self, w: &mut World, e: Entity, fov: &Vec<Point>)
        requires
            old(w).wf(),
        ensures
            view_applied(old(w), final(w), e, fov@),
    {
        let i = e.id;
        if i >= w.alive.len() {
            return;
        }
        let from = match w.positions[i] {
            Some(p) => p.to_point(),
            None => { return; },
        };
        let mut slot: Option<crate::component::Viewshed> = None;
        let ghost w0 = *w;
        match &w.viewsheds[i] {
            Some(v) => { if !v.dirty { return; } },
            None => { return; },
        }
        std::mem::swap(&mut slot, &mut w.viewsheds[i]);
        let old_view = slot.unwrap();
        let range = old_view.range;
        let seen = clip_field_of_view(fov, from, range);
        let ghost w1 = *w;
        if w.players[i].is_some() {
            let mut t: usize = 0;
            while t < MAPSIZE_COUNT
                invariant
                    w.map.wf(),
                    *w == (World { map: w.map, ..w1 }),
                    t <= MAPSIZE_COUNT,
                    w.map == (GameMap { visible_tiles: w.map.visible_tiles, ..w0.map }),
                    forall|k: int| 0 <= k < t ==> !(#[trigger] w.map.visible_tiles@[k]),
                decreases MAPSIZE_COUNT - t,
            {
                w.map.visible_tiles.set(t, false);
                t = t + 1;
            }
            let mut k: usize = 0;
            proof { lemma_clip_in_view(fov@, from, range as int); }
            while k < seen.len()
                invariant
                    w.map.wf(),
                    *w == (World { map: w.map, ..w1 }),
                    k <= seen@.len(),
                    seen@ == clip_view(fov@, from, range as int),
                    forall|q: int| 0 <= q < seen@.len() ==> within_view(#[trigger] seen@[q], from, range as int),
                    w.map == (GameMap { visible_tiles: w.map.visible_tiles, revealed_tiles: w.map.revealed_tiles, ..w0.map }),
                    forall|u: int| 0 <= u < MAPSIZE_COUNT ==> #[trigger] w.map.visible_tiles@[u] == covers(seen@.subrange(0, k as int), u),
                    forall|u: int| 0 <= u < MAPSIZE_COUNT ==> #[trigger] w.map.revealed_tiles@[u]
                        == (w0.map.revealed_tiles@[u] || covers(seen@.subrange(0, k as int), u)),
                decreases seen@.len() - k,
            {
                let p = seen[k];
                assert(within_view(seen@[k as int], from, range as int));
                let idx = w.map.xy_idx(p.x, p.y);
                w.map.visible_tiles.set(idx, true);
                w.map.revealed_tiles.set(idx, true);
                let ghost pre = seen@.subrange(0, k as int);
                let ghost post = seen@.subrange(0, k as int + 1);
                assert forall|u: int| 0 <= u < MAPSIZE_COUNT implies covers(post, u) == (covers(pre, u) || u == idx) by {
                    if covers(pre, u) {
                        let q = choose|q: int| 0 <= q < pre.len() && idx_of((#[trigger] pre[q]).x as int, pre[q].y as int) == u;
                        assert(post[q] == pre[q]);
                    }
                    if u == idx {
                        assert(post[k as int] == p);
                    }
                    if covers(post, u) && u != idx {
                        let q = choose|q: int| 0 <= q < post.len() && idx_of((#[trigger] post[q]).x as int, post[q].y as int) == u;
                        assert(q < k);
                        assert(pre[q] == post[q]);
                    }
                }
                k = k + 1;
            }
            assert(seen@.subrange(0, k as int) =~= seen@);
        }
        let nv = crate::component::Viewshed { visible_tiles: seen, range, dirty: false };
        w.viewsheds.set(i, Some(nv));
    }
}

} // verus!
