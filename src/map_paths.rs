use vstd::prelude::*;
use crate::geom::{Rect, center_of};
use crate::map::{Tile, TileType, idx_of, in_bounds};

verus! {

/// Whether `(x, y)` is on the map and not a wall.
pub open spec fn open_at(tiles: Seq<Tile>, x: int, y: int) -> bool {
    in_bounds(x, y) && tiles[idx_of(x, y)].tiletype != TileType::Wall
}

/// A walk over open tiles in king moves (one step in any of eight directions).
pub open spec fn is_walk(tiles: Seq<Tile>, s: Seq<(int, int)>) -> bool {
    &&& s.len() >= 1
    &&& forall|i: int| 0 <= i < s.len() ==> open_at(tiles, (#[trigger] s[i]).0, s[i].1)
    &&& forall|i: int| 0 <= i < s.len() - 1 ==> -1 <= (#[trigger] s[i + 1]).0 - s[i].0 <= 1 && -1 <= s[i + 1].1 - s[i].1 <= 1
}

/// Whether a walk over open tiles leads from `a` to `b`.
pub open spec fn connected(tiles: Seq<Tile>, a: (int, int), b: (int, int)) -> bool {
    exists|s: Seq<(int, int)>| is_walk(tiles, s) && s[0] == a && s.last() == b
}

pub open spec fn between(v: int, a: int, b: int) -> bool {
    (a <= v <= b) || (b <= v <= a)
}

pub open spec fn center_pt(r: Rect) -> (int, int) {
    center_of(r)
}

/// The tiles of the corridor that runs along row `a.1` and then column `b.0`.
pub open spec fn on_hv(a: (int, int), b: (int, int), x: int, y: int) -> bool {
    (y == a.1 && between(x, a.0, b.0)) || (x == b.0 && between(y, a.1, b.1))
}

/// The tiles of the corridor that runs along column `a.0` and then row `b.1`.
pub open spec fn on_vh(a: (int, int), b: (int, int), x: int, y: int) -> bool {
    (x == a.0 && between(y, a.1, b.1)) || (y == b.1 && between(x, a.0, b.0))
}

pub open spec fn hv_open(tiles: Seq<Tile>, a: (int, int), b: (int, int)) -> bool {
    forall|x: int, y: int| #[trigger] on_hv(a, b, x, y) ==> open_at(tiles, x, y)
}

pub open spec fn vh_open(tiles: Seq<Tile>, a: (int, int), b: (int, int)) -> bool {
    forall|x: int, y: int| #[trigger] on_vh(a, b, x, y) ==> open_at(tiles, x, y)
}

/// The corridor between two consecutive rooms is open along one of its two bends.
pub open spec fn corridor_open(tiles: Seq<Tile>, a: Rect, b: Rect) -> bool {
    hv_open(tiles, center_pt(a), center_pt(b)) || vh_open(tiles, center_pt(a), center_pt(b))
}

/// The corridor leaving room `k` for room `k + 1` is open.
pub open spec fn corridor_after(tiles: Seq<Tile>, rooms: Seq<Rect>, k: int) -> bool {
    corridor_open(tiles, rooms[k], rooms[k + 1])
}

pub open spec fn in_room(r: Rect, x: int, y: int) -> bool {
    r.x1 < x <= r.x2 && r.y1 < y <= r.y2
}

/// Why an open tile is open: it lies in a room, or on an open corridor
/// between consecutive rooms.
pub open spec fn explained(tiles: Seq<Tile>, rooms: Seq<Rect>, x: int, y: int) -> bool {
    (exists|k: int| 0 <= k < rooms.len() && #[trigger] in_room(rooms[k], x, y))
    || (exists|k: int| 0 <= k < rooms.len() - 1 && (#[trigger] hv_open(tiles, center_pt(rooms[k]), center_pt(rooms[k + 1]))
        && on_hv(center_pt(rooms[k]), center_pt(rooms[k + 1]), x, y)))
    || (exists|k: int| 0 <= k < rooms.len() - 1 && (#[trigger] vh_open(tiles, center_pt(rooms[k]), center_pt(rooms[k + 1]))
        && on_vh(center_pt(rooms[k]), center_pt(rooms[k + 1]), x, y)))
}

pub open spec fn opens_more(t1: Seq<Tile>, t2: Seq<Tile>) -> bool {
    forall|x: int, y: int| #[trigger] open_at(t1, x, y) ==> open_at(t2, x, y)
}

pub proof fn lemma_walk_join(tiles: Seq<Tile>, a: (int, int), b: (int, int), c: (int, int))
    requires
        connected(tiles, a, b),
        connected(tiles, b, c),
    ensures
        connected(tiles, a, c),
{
    let s1 = choose|s: Seq<(int, int)>| is_walk(tiles, s) && s[0] == a && s.last() == b;
    let s2 = choose|s: Seq<(int, int)>| is_walk(tiles, s) && s[0] == b && s.last() == c;
    let s = s1 + s2.skip(1);
    assert forall|i: int| 0 <= i < s.len() implies open_at(tiles, (#[trigger] s[i]).0, s[i].1) by {
        if i < s1.len() {
            assert(s[i] == s1[i]);
        } else {
            assert(s[i] == s2[i - s1.len() + 1]);
        }
    }
    assert forall|i: int| 0 <= i < s.len() - 1 implies -1 <= (#[trigger] s[i + 1]).0 - s[i].0 <= 1 && -1 <= s[i + 1].1 - s[i].1 <= 1 by {
        if i < s1.len() - 1 {
            assert(s[i] == s1[i] && s[i + 1] == s1[i + 1]);
        } else if i == s1.len() - 1 {
            assert(s[i] == s1[i] && s1[i] == s2[0] && s[i + 1] == s2[1]);
        } else {
            assert(s[i] == s2[i - s1.len() + 1] && s[i + 1] == s2[i - s1.len() + 2]);
        }
    }
    if s2.len() == 1 {
        assert(s.last() == s1.last());
    } else {
        assert(s.last() == s2.last());
    }
    assert(is_walk(tiles, s) && s[0] == a && s.last() == c);
}

/// Walking along a row whose tiles between `x1` and `x2` are all open.
pub proof fn lemma_row_walk(tiles: Seq<Tile>, y: int, x1: int, x2: int)
    requires
        forall|x: int| #[trigger] between(x, x1, x2) ==> open_at(tiles, x, y),
    ensures
        connected(tiles, (x1, y), (x2, y)),
{
    let d: int = if x1 <= x2 { 1 } else { -1 };
    let n: int = if x1 <= x2 { x2 - x1 + 1 } else { x1 - x2 + 1 };
    let s = Seq::new(n as nat, |i: int| (x1 + d * i, y));
    assert forall|i: int| 0 <= i < s.len() implies open_at(tiles, (#[trigger] s[i]).0, s[i].1) by {
        assert(between(x1 + d * i, x1, x2));
    }
    assert(s.last() == (x2, y));
    assert(is_walk(tiles, s));
}

/// Walking along a column whose tiles between `y1` and `y2` are all open.
pub proof fn lemma_column_walk(tiles: Seq<Tile>, x: int, y1: int, y2: int)
    requires
        forall|y: int| #[trigger] between(y, y1, y2) ==> open_at(tiles, x, y),
    ensures
        connected(tiles, (x, y1), (x, y2)),
{
    let d: int = if y1 <= y2 { 1 } else { -1 };
    let n: int = if y1 <= y2 { y2 - y1 + 1 } else { y1 - y2 + 1 };
    let s = Seq::new(n as nat, |i: int| (x, y1 + d * i));
    assert forall|i: int| 0 <= i < s.len() implies open_at(tiles, (#[trigger] s[i]).0, s[i].1) by {
        assert(between(y1 + d * i, y1, y2));
    }
    assert(s.last() == (x, y2));
    assert(is_walk(tiles, s));
}

pub proof fn lemma_hv_walk(tiles: Seq<Tile>, a: (int, int), b: (int, int), x: int, y: int)
    requires
        hv_open(tiles, a, b),
        on_hv(a, b, x, y),
    ensures
        connected(tiles, a, (x, y)),
{
    if y == a.1 && between(x, a.0, b.0) {
        assert forall|v: int| #[trigger] between(v, a.0, x) implies open_at(tiles, v, a.1) by {
            assert(on_hv(a, b, v, a.1));
        }
        lemma_row_walk(tiles, a.1, a.0, x);
    } else {
        assert forall|v: int| #[trigger] between(v, a.0, b.0) implies open_at(tiles, v, a.1) by {
            assert(on_hv(a, b, v, a.1));
        }
        lemma_row_walk(tiles, a.1, a.0, b.0);
        assert forall|v: int| #[trigger] between(v, a.1, y) implies open_at(tiles, b.0, v) by {
            assert(on_hv(a, b, b.0, v));
        }
        lemma_column_walk(tiles, b.0, a.1, y);
        lemma_walk_join(tiles, a, (b.0, a.1), (x, y));
    }
}

pub proof fn lemma_vh_walk(tiles: Seq<Tile>, a: (int, int), b: (int, int), x: int, y: int)
    requires
        vh_open(tiles, a, b),
        on_vh(a, b, x, y),
    ensures
        connected(tiles, a, (x, y)),
{
    if x == a.0 && between(y, a.1, b.1) {
        assert forall|v: int| #[trigger] between(v, a.1, y) implies open_at(tiles, a.0, v) by {
            assert(on_vh(a, b, a.0, v));
        }
        lemma_column_walk(tiles, a.0, a.1, y);
    } else {
        assert forall|v: int| #[trigger] between(v, a.1, b.1) implies open_at(tiles, a.0, v) by {
            assert(on_vh(a, b, a.0, v));
        }
        lemma_column_walk(tiles, a.0, a.1, b.1);
        assert forall|v: int| #[trigger] between(v, a.0, x) implies open_at(tiles, v, b.1) by {
            assert(on_vh(a, b, v, b.1));
        }
        lemma_row_walk(tiles, b.1, a.0, x);
        lemma_walk_join(tiles, a, (a.0, b.1), (x, y));
    }
}

/// Within a room whose interior is open, every tile is reachable from the centre.
pub proof fn lemma_room_walk(tiles: Seq<Tile>, r: Rect, x: int, y: int)
    requires
        r.x1 + 2 <= r.x2,
        r.y1 + 2 <= r.y2,
        forall|px: int, py: int| #[trigger] in_room(r, px, py) ==> open_at(tiles, px, py),
        in_room(r, x, y),
    ensures
        connected(tiles, center_pt(r), (x, y)),
{
    let c = center_pt(r);
    assert(in_room(r, c.0, c.1));
    assert forall|v: int| #[trigger] between(v, c.0, x) implies open_at(tiles, v, c.1) by {
        assert(in_room(r, v, c.1));
    }
    lemma_row_walk(tiles, c.1, c.0, x);
    assert forall|v: int| #[trigger] between(v, c.1, y) implies open_at(tiles, x, v) by {
        assert(in_room(r, x, v));
    }
    lemma_column_walk(tiles, x, c.1, y);
    lemma_walk_join(tiles, c, (x, c.1), (x, y));
}

pub proof fn lemma_idx_injective(x1: int, y1: int, x2: int, y2: int)
    requires
        in_bounds(x1, y1),
        in_bounds(x2, y2),
        idx_of(x1, y1) == idx_of(x2, y2),
    ensures
        x1 == x2 && y1 == y2,
{
    assert(y1 == y2) by (nonlinear_arith)
        requires 0 <= x1 < 64, 0 <= x2 < 64, y1 * 64 + x1 == y2 * 64 + x2;
}

/// Opening more tiles, and adding rooms after the existing ones, keeps every
/// open tile explained and every corridor open.
pub proof fn lemma_explained_mono(t1: Seq<Tile>, t2: Seq<Tile>, r1: Seq<Rect>, r2: Seq<Rect>, x: int, y: int)
    requires
        opens_more(t1, t2),
        r1.len() <= r2.len(),
        forall|k: int| 0 <= k < r1.len() ==> r2[k] == r1[k],
        explained(t1, r1, x, y),
    ensures
        explained(t2, r2, x, y),
{
    if exists|k: int| 0 <= k < r1.len() && #[trigger] in_room(r1[k], x, y) {
        let k = choose|k: int| 0 <= k < r1.len() && #[trigger] in_room(r1[k], x, y);
        assert(in_room(r2[k], x, y));
    } else if exists|k: int| 0 <= k < r1.len() - 1 && (#[trigger] hv_open(t1, center_pt(r1[k]), center_pt(r1[k + 1]))
        && on_hv(center_pt(r1[k]), center_pt(r1[k + 1]), x, y)) {
        let k = choose|k: int| 0 <= k < r1.len() - 1 && (#[trigger] hv_open(t1, center_pt(r1[k]), center_pt(r1[k + 1]))
            && on_hv(center_pt(r1[k]), center_pt(r1[k + 1]), x, y));
        lemma_corridor_mono(t1, t2, center_pt(r1[k]), center_pt(r1[k + 1]));
        assert(r2[k] == r1[k] && r2[k + 1] == r1[k + 1]);
        assert(hv_open(t2, center_pt(r2[k]), center_pt(r2[k + 1])));
    } else {
        let k = choose|k: int| 0 <= k < r1.len() - 1 && (#[trigger] vh_open(t1, center_pt(r1[k]), center_pt(r1[k + 1]))
            && on_vh(center_pt(r1[k]), center_pt(r1[k + 1]), x, y));
        lemma_corridor_mono(t1, t2, center_pt(r1[k]), center_pt(r1[k + 1]));
        assert(r2[k] == r1[k] && r2[k + 1] == r1[k + 1]);
        assert(vh_open(t2, center_pt(r2[k]), center_pt(r2[k + 1])));
    }
}

pub proof fn lemma_corridor_mono(t1: Seq<Tile>, t2: Seq<Tile>, a: (int, int), b: (int, int))
    requires
        opens_more(t1, t2),
    ensures
        hv_open(t1, a, b) ==> hv_open(t2, a, b),
        vh_open(t1, a, b) ==> vh_open(t2, a, b),
{
    if hv_open(t1, a, b) {
        assert forall|x: int, y: int| #[trigger] on_hv(a, b, x, y) implies open_at(t2, x, y) by {
            assert(open_at(t1, x, y));
        }
    }
    if vh_open(t1, a, b) {
        assert forall|x: int, y: int| #[trigger] on_vh(a, b, x, y) implies open_at(t2, x, y) by {
            assert(open_at(t1, x, y));
        }
    }
}

/// Rooms laid out with open interiors, each joined to the next by an open
/// corridor, and no open tile elsewhere: then every open tile can be walked
/// to from the centre of the first room.
pub proof fn lemma_all_reachable(tiles: Seq<Tile>, rooms: Seq<Rect>)
    requires
        rooms.len() >= 1,
        forall|k: int| 0 <= k < rooms.len() ==> (#[trigger] rooms[k]).x1 + 2 <= rooms[k].x2 && rooms[k].y1 + 2 <= rooms[k].y2,
        forall|k: int, px: int, py: int| 0 <= k < rooms.len() && #[trigger] in_room(rooms[k], px, py) ==> open_at(tiles, px, py),
        forall|k: int| 0 <= k < rooms.len() - 1 ==> #[trigger] corridor_after(tiles, rooms, k),
        forall|x: int, y: int| #[trigger] open_at(tiles, x, y) ==> explained(tiles, rooms, x, y),
    ensures
        forall|x: int, y: int| #[trigger] open_at(tiles, x, y) ==> connected(tiles, center_pt(rooms[0]), (x, y)),
{
    let c0 = center_pt(rooms[0]);
    assert forall|k: int| 0 <= k < rooms.len() implies #[trigger] connected(tiles, c0, center_pt(rooms[k])) by {
        lemma_centres_reachable(tiles, rooms, k);
    }
    assert forall|x: int, y: int| #[trigger] open_at(tiles, x, y) implies connected(tiles, c0, (x, y)) by {
        assert(explained(tiles, rooms, x, y));
        if exists|k: int| 0 <= k < rooms.len() && #[trigger] in_room(rooms[k], x, y) {
            let k = choose|k: int| 0 <= k < rooms.len() && #[trigger] in_room(rooms[k], x, y);
            assert forall|px: int, py: int| #[trigger] in_room(rooms[k], px, py) implies open_at(tiles, px, py) by {}
            lemma_room_walk(tiles, rooms[k], x, y);
            assert(connected(tiles, c0, center_pt(rooms[k])));
            lemma_walk_join(tiles, c0, center_pt(rooms[k]), (x, y));
        } else if exists|k: int| 0 <= k < rooms.len() - 1 && (#[trigger] hv_open(tiles, center_pt(rooms[k]), center_pt(rooms[k + 1]))
            && on_hv(center_pt(rooms[k]), center_pt(rooms[k + 1]), x, y)) {
            let k = choose|k: int| 0 <= k < rooms.len() - 1 && (#[trigger] hv_open(tiles, center_pt(rooms[k]), center_pt(rooms[k + 1]))
                && on_hv(center_pt(rooms[k]), center_pt(rooms[k + 1]), x, y));
            lemma_hv_walk(tiles, center_pt(rooms[k]), center_pt(rooms[k + 1]), x, y);
            assert(connected(tiles, c0, center_pt(rooms[k])));
            lemma_walk_join(tiles, c0, center_pt(rooms[k]), (x, y));
        } else {
            let k = choose|k: int| 0 <= k < rooms.len() - 1 && (#[trigger] vh_open(tiles, center_pt(rooms[k]), center_pt(rooms[k + 1]))
                && on_vh(center_pt(rooms[k]), center_pt(rooms[k + 1]), x, y));
            lemma_vh_walk(tiles, center_pt(rooms[k]), center_pt(rooms[k + 1]), x, y);
            assert(connected(tiles, c0, center_pt(rooms[k])));
            lemma_walk_join(tiles, c0, center_pt(rooms[k]), (x, y));
        }
    }
}

proof fn lemma_centres_reachable(tiles: Seq<Tile>, rooms: Seq<Rect>, k: int)
    requires
        0 <= k < rooms.len(),
        forall|j: int| 0 <= j < rooms.len() ==> (#[trigger] rooms[j]).x1 + 2 <= rooms[j].x2 && rooms[j].y1 + 2 <= rooms[j].y2,
        forall|j: int, px: int, py: int| 0 <= j < rooms.len() && #[trigger] in_room(rooms[j], px, py) ==> open_at(tiles, px, py),
        forall|j: int| 0 <= j < rooms.len() - 1 ==> #[trigger] corridor_after(tiles, rooms, j),
    ensures
        connected(tiles, center_pt(rooms[0]), center_pt(rooms[k])),
    decreases k,
{
    let c = center_pt(rooms[k]);
    if k == 0 {
        assert(in_room(rooms[0], c.0, c.1));
        let s = seq![c];
        assert(is_walk(tiles, s) && s[0] == c && s.last() == c);
    } else {
        lemma_centres_reachable(tiles, rooms, k - 1);
        let a = center_pt(rooms[k - 1]);
        assert(corridor_after(tiles, rooms, k - 1));
        if hv_open(tiles, a, c) {
            assert(on_hv(a, c, c.0, c.1));
            lemma_hv_walk(tiles, a, c, c.0, c.1);
        } else {
            assert(on_vh(a, c, c.0, c.1));
            lemma_vh_walk(tiles, a, c, c.0, c.1);
        }
        lemma_walk_join(tiles, center_pt(rooms[0]), a, c);
    }
}

} // verus!
