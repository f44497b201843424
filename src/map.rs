use vstd::prelude::*;
use bracket_lib::prelude::RandomNumberGenerator;
use crate::component::{Entity, GameImage};
use crate::geom::{Rect, rects_intersect, center_of};
use crate::rng::{rng_range, roll_die};
use crate::map_paths::{is_walk, open_at, between, in_room, explained, corridor_after, opens_more, connected, center_pt,
    on_hv, on_vh, hv_open, vh_open, lemma_idx_injective, lemma_explained_mono, lemma_corridor_mono, lemma_all_reachable};

verus! {

pub const MAPSIZE_WIDTH: usize = 64;
pub const MAPSIZE_HEIGHT: usize = 64;
pub const MAPSIZE_COUNT: usize = 4096;
pub const MIN_ROOMS: i32 = 10;
pub const TRY_ROOMS: i32 = 3;
/// Rounds of room placement after which the generator gives up on reaching
/// `MIN_ROOMS` and keeps what it has.
pub const MAX_ROUNDS: i32 = 2000;
pub const ROOM_MIN_SIZE: i32 = 5;
pub const ROOM_MAX_SIZE: i32 = 15;

#[derive(Clone, Copy, Debug, PartialEq, Eq, Structural)]
pub enum TileType {
    Wall,
    Floor,
    DownStairs,
}

impl TileType {
    pub fn to_game_image(self) -> (r: GameImage)
        ensures
            r == (match self {
                TileType::Wall => GameImage::Wall,
                TileType::Floor => GameImage::Floor,
                TileType::DownStairs => GameImage::DownStairs,
            }),
    {
        match self {
            TileType::Wall => GameImage::Wall,
            TileType::Floor => GameImage::Floor,
            TileType::DownStairs => GameImage::DownStairs,
        }
    }
}

/// One map cell. `background` is a decorative shade (0, 1 or 2) with no
/// bearing on play; it is not saved.
#[derive(Clone, Copy, Debug, PartialEq, Eq, Structural)]
pub struct Tile {
    pub tiletype: TileType,
    pub background: Option<u8>,
}

impl Tile {
    /// Picks a random decorative shade for walls and floors; stairs keep theirs.
    pub fn set_background(&mut self, rng: &mut RandomNumberGenerator)
        ensures
            final(self).tiletype == old(self).tiletype,
            old(self).tiletype == TileType::DownStairs ==> final(self).background == old(self).background,
            old(self).tiletype != TileType::DownStairs ==> (final(self).background matches Some(s) && s < 3),
    {
        let r = rng_range(rng, 0, 3);
        match self.tiletype {
            TileType::Wall | TileType::Floor => {
                self.background = Some(r as u8);
            },
            TileType::DownStairs => {},
        }
    }
}

pub open spec fn idx_of(x: int, y: int) -> int {
    y * MAPSIZE_WIDTH as int + x
}

pub open spec fn in_bounds(x: int, y: int) -> bool {
    0 <= x < MAPSIZE_WIDTH as int && 0 <= y < MAPSIZE_HEIGHT as int
}

/// Nothing seen, nothing blocked, nobody indexed.
pub open spec fn fresh_overlay(m: &GameMap) -> bool {
    &&& forall|i: int| 0 <= i < MAPSIZE_COUNT ==> !(#[trigger] m.revealed_tiles@[i])
    &&& forall|i: int| 0 <= i < MAPSIZE_COUNT ==> !(#[trigger] m.visible_tiles@[i])
    &&& forall|i: int| 0 <= i < MAPSIZE_COUNT ==> !(#[trigger] m.blocked@[i])
    &&& forall|i: int| 0 <= i < MAPSIZE_COUNT ==> (#[trigger] m.tile_content@[i])@.len() == 0
}

/// A room that lies strictly inside the grid, leaving the outer ring as
/// wall, with at least two tiles of interior each way.
pub open spec fn room_in_bounds(r: Rect) -> bool {
    0 <= r.x1 && r.x1 + 2 <= r.x2 <= MAPSIZE_WIDTH as int - 2 && 0 <= r.y1 && r.y1 + 2 <= r.y2 <= MAPSIZE_HEIGHT as int - 2
}

pub open spec fn rooms_disjoint(rooms: Seq<Rect>) -> bool {
    forall|i: int, j: int| 0 <= i < j < rooms.len() ==> !rects_intersect(#[trigger] rooms[i], #[trigger] rooms[j])
}

pub open spec fn no_stairs(tiles: Seq<Tile>) -> bool {
    forall|i: int| 0 <= i < tiles.len() ==> (#[trigger] tiles[i]).tiletype != TileType::DownStairs
}

/// Exactly one down-stairs tile, at index `s`.
pub open spec fn only_stairs_at(tiles: Seq<Tile>, s: int) -> bool {
    &&& 0 <= s < tiles.len()
    &&& tiles[s].tiletype == TileType::DownStairs
    &&& forall|i: int| 0 <= i < tiles.len() && i != s ==> (#[trigger] tiles[i]).tiletype != TileType::DownStairs
}

#[derive(Debug)]
pub struct GameMap {
    pub tiles: Vec<Tile>,
    pub revealed_tiles: Vec<bool>,
    pub visible_tiles: Vec<bool>,
    pub blocked: Vec<bool>,
    pub rooms: Vec<Rect>,
    pub width: i32,
    pub height: i32,
    pub depth: i32,
    /// Which entities stand on each tile; rebuilt every turn, never saved.
    pub tile_content: Vec<Vec<Entity>>,
}

impl GameMap {
    pub open spec fn wf(&self) -> bool {
        &&& self.width == MAPSIZE_WIDTH as i32
        &&& self.height == MAPSIZE_HEIGHT as i32
        &&& self.tiles@.len() == MAPSIZE_COUNT
        &&& self.revealed_tiles@.len() == MAPSIZE_COUNT
        &&& self.visible_tiles@.len() == MAPSIZE_COUNT
        &&& self.blocked@.len() == MAPSIZE_COUNT
        &&& self.tile_content@.len() == MAPSIZE_COUNT
    }

    pub open spec fn is_wall(&self, i: int) -> bool {
        self.tiles@[i].tiletype == TileType::Wall
    }

    /// An all-wall map of the fixed size with nothing revealed.
    pub fn new_filled(depth: i32) -> (r: GameMap)
        ensures
            r.wf(),
            r.depth == depth,
            r.rooms@.len() == 0,
            forall|i: int| 0 <= i < MAPSIZE_COUNT ==> (#[trigger] r.tiles@[i]) == (Tile { tiletype: TileType::Wall, background: None }),
            fresh_overlay(&r),
    {
        let mut tiles: Vec<Tile> = Vec::new();
        let mut revealed: Vec<bool> = Vec::new();
        let mut visible: Vec<bool> = Vec::new();
        let mut blocked: Vec<bool> = Vec::new();
        let mut content: Vec<Vec<Entity>> = Vec::new();
        let mut i: usize = 0;
        while i < MAPSIZE_COUNT
            invariant
                i <= MAPSIZE_COUNT,
                tiles@.len() == i && revealed@.len() == i && visible@.len() == i && blocked@.len() == i && content@.len() == i,
                forall|k: int| 0 <= k < i ==> (#[trigger] tiles@[k]) == (Tile { tiletype: TileType::Wall, background: None }),
                forall|k: int| 0 <= k < i ==> !(#[trigger] revealed@[k]),
                forall|k: int| 0 <= k < i ==> !(#[trigger] visible@[k]),
                forall|k: int| 0 <= k < i ==> !(#[trigger] blocked@[k]),
                forall|k: int| 0 <= k < i ==> (#[trigger] content@[k])@.len() == 0,
            decreases MAPSIZE_COUNT - i,
        {
            tiles.push(Tile { tiletype: TileType::Wall, background: None });
            revealed.push(false);
            visible.push(false);
            blocked.push(false);
            content.push(Vec::new());
            i = i + 1;
        }
        GameMap {
            tiles,
            revealed_tiles: revealed,
            visible_tiles: visible,
            blocked,
            rooms: Vec::new(),
            width: MAPSIZE_WIDTH as i32,
            height: MAPSIZE_HEIGHT as i32,
            depth,
            tile_content: content,
        }
    }

    pub fn xy_idx(&self, x: i32, y: i32) -> (r: usize)
        requires
            self.wf(),
            in_bounds(x as int, y as int),
        ensures
            r == idx_of(x as int, y as int),
            r < MAPSIZE_COUNT,
    {
        assert(0 <= y * 64 <= 63 * 64) by (nonlinear_arith)
            requires 0 <= y < 64;
        (y as usize) * (self.width as usize) + x as usize
    }

    /// Whether a creature may step onto `(x, y)`: inside the border and not blocked.
    pub fn is_exit_valid(&self, x: i32, y: i32) -> (r: bool)
        requires
            self.wf(),
        ensures
            r == (1 <= x <= self.width - 1 && 1 <= y <= self.height - 1
                && !self.blocked@[idx_of(x as int, y as int)]),
    {
        if x < 1 || x > self.width - 1 || y < 1 || y > self.height - 1 {
            return false;
        }
        let idx = self.xy_idx(x, y);
        !self.blocked[idx]
    }
    /// Carving leaves every tile either as it was or turned to floor, and
    /// touches nothing but tile types.
    pub open spec fn carved_from(&self, old: &GameMap) -> bool {
        &&& self.wf()
        &&& self.rooms == old.rooms
        &&& self.depth == old.depth
        &&& self.revealed_tiles == old.revealed_tiles
        &&& self.visible_tiles == old.visible_tiles
        &&& self.blocked == old.blocked
        &&& self.tile_content == old.tile_content
        &&& forall|i: int| 0 <= i < MAPSIZE_COUNT ==> (#[trigger] self.tiles@[i] == old.tiles@[i]
            || self.tiles@[i] == (Tile { tiletype: TileType::Floor, background: old.tiles@[i].background }))
    }

    proof fn lemma_carved_trans(a: &GameMap, b: &GameMap, c: &GameMap)
        requires
            b.carved_from(a),
            c.carved_from(b),
        ensures
            c.carved_from(a),
    {
        assert forall|i: int| 0 <= i < MAPSIZE_COUNT implies (#[trigger] c.tiles@[i] == a.tiles@[i]
            || c.tiles@[i] == (Tile { tiletype: TileType::Floor, background: a.tiles@[i].background })) by {
            assert(b.tiles@[i] == a.tiles@[i] || b.tiles@[i] == (Tile { tiletype: TileType::Floor, background: a.tiles@[i].background }));
            assert(c.tiles@[i] == b.tiles@[i] || c.tiles@[i] == (Tile { tiletype: TileType::Floor, background: b.tiles@[i].background }));
        }
    }

    fn set_floor(&mut self, idx: usize)
        requires
            old(self).wf(),
            idx < MAPSIZE_COUNT,
        ensures
            final(self).carved_from(old(self)),
            final(self).tiles@[idx as int].tiletype == TileType::Floor,
            forall|i: int| 0 <= i < MAPSIZE_COUNT && i != idx ==> #[trigger] final(self).tiles@[i] == old(self).tiles@[i],
    {
        self.tiles[idx].tiletype = TileType::Floor;
    }

    /// Turns row `y` to floor from column `min(x1, x2)` to `max(x1, x2)`.
    fn apply_horizontal_tunnel(&mut self, x1: i32, x2: i32, y: i32)
        requires
            old(self).wf(),
            in_bounds(x1 as int, y as int),
            in_bounds(x2 as int, y as int),
        ensures
            final(self).carved_from(old(self)),
            forall|x: int| #![trigger idx_of(x, y as int)]
                (if x1 <= x2 { x1 as int } else { x2 as int }) <= x <= (if x1 <= x2 { x2 as int } else { x1 as int })
                && idx_of(x, y as int) > 0 ==> final(self).tiles@[idx_of(x, y as int)].tiletype == TileType::Floor,
            forall|px: int, py: int| in_bounds(px, py) && !(py == y && between(px, x1 as int, x2 as int))
                ==> #[trigger] final(self).tiles@[idx_of(px, py)] == old(self).tiles@[idx_of(px, py)],
    {
        let lo = if x1 <= x2 { x1 } else { x2 };
        let hi = if x1 <= x2 { x2 } else { x1 };
        let mut x = lo;
        let ghost start = *self;
        while x <= hi
            invariant
                lo <= x <= hi + 1,
                hi < MAPSIZE_WIDTH,
                0 <= lo,
                0 <= y < MAPSIZE_HEIGHT,
                self.carved_from(&start),
                start.wf(),
                forall|k: int| #![trigger idx_of(k, y as int)]
                    lo <= k < x && idx_of(k, y as int) > 0 ==> self.tiles@[idx_of(k, y as int)].tiletype == TileType::Floor,
                lo == (if x1 <= x2 { x1 } else { x2 }),
                hi == (if x1 <= x2 { x2 } else { x1 }),
                forall|px: int, py: int| in_bounds(px, py) && !(py == y && between(px, x1 as int, x2 as int))
                    ==> #[trigger] self.tiles@[idx_of(px, py)] == start.tiles@[idx_of(px, py)],
            decreases hi + 1 - x,
        {
            let idx = self.xy_idx(x, y);
            if idx > 0 && idx < MAPSIZE_COUNT {
                let ghost before = *self;
                self.set_floor(idx);
                proof { GameMap::lemma_carved_trans(&start, &before, self); }
                assert forall|px: int, py: int| in_bounds(px, py) && !(py == y && between(px, x1 as int, x2 as int))
                    implies #[trigger] self.tiles@[idx_of(px, py)] == start.tiles@[idx_of(px, py)] by {
                    if idx_of(px, py) == idx {
                        lemma_idx_injective(px, py, x as int, y as int);
                    }
                    assert(0 <= idx_of(px, py) < MAPSIZE_COUNT) by (nonlinear_arith)
                        requires 0 <= px < 64, 0 <= py < 64;
                    assert(self.tiles@[idx_of(px, py)] == before.tiles@[idx_of(px, py)]);
                }
            }
            x = x + 1;
        }
    }

    /// Turns column `x` to floor from row `min(y1, y2)` to `max(y1, y2)`.
    fn apply_vertical_tunnel(&mut self, y1: i32, y2: i32, x: i32)
        requires
            old(self).wf(),
            in_bounds(x as int, y1 as int),
            in_bounds(x as int, y2 as int),
        ensures
            final(self).carved_from(old(self)),
            forall|y: int| #![trigger idx_of(x as int, y)]
                (if y1 <= y2 { y1 as int } else { y2 as int }) <= y <= (if y1 <= y2 { y2 as int } else { y1 as int })
                && idx_of(x as int, y) > 0 ==> final(self).tiles@[idx_of(x as int, y)].tiletype == TileType::Floor,
            forall|px: int, py: int| in_bounds(px, py) && !(px == x && between(py, y1 as int, y2 as int))
                ==> #[trigger] final(self).tiles@[idx_of(px, py)] == old(self).tiles@[idx_of(px, py)],
    {
        let lo = if y1 <= y2 { y1 } else { y2 };
        let hi = if y1 <= y2 { y2 } else { y1 };
        let mut y = lo;
        let ghost start = *self;
        while y <= hi
            invariant
                lo <= y <= hi + 1,
                hi < MAPSIZE_HEIGHT,
                0 <= lo,
                0 <= x < MAPSIZE_WIDTH,
                self.carved_from(&start),
                start.wf(),
                forall|k: int| #![trigger idx_of(x as int, k)]
                    lo <= k < y && idx_of(x as int, k) > 0 ==> self.tiles@[idx_of(x as int, k)].tiletype == TileType::Floor,
                lo == (if y1 <= y2 { y1 } else { y2 }),
                hi == (if y1 <= y2 { y2 } else { y1 }),
                forall|px: int, py: int| in_bounds(px, py) && !(px == x && between(py, y1 as int, y2 as int))
                    ==> #[trigger] self.tiles@[idx_of(px, py)] == start.tiles@[idx_of(px, py)],
            decreases hi + 1 - y,
        {
            let idx = self.xy_idx(x, y);
            if idx > 0 && idx < MAPSIZE_COUNT {
                let ghost before = *self;
                self.set_floor(idx);
                proof { GameMap::lemma_carved_trans(&start, &before, self); }
                assert forall|px: int, py: int| in_bounds(px, py) && !(px == x && between(py, y1 as int, y2 as int))
                    implies #[trigger] self.tiles@[idx_of(px, py)] == start.tiles@[idx_of(px, py)] by {
                    if idx_of(px, py) == idx {
                        lemma_idx_injective(px, py, x as int, y as int);
                    }
                    assert(0 <= idx_of(px, py) < MAPSIZE_COUNT) by (nonlinear_arith)
                        requires 0 <= px < 64, 0 <= py < 64;
                    assert(self.tiles@[idx_of(px, py)] == before.tiles@[idx_of(px, py)]);
                }
            }
            y = y + 1;
        }
    }

    /// Turns the interior of `room` to floor.
    fn apply_room_to_map(&mut self, room: &Rect)
        requires
            old(self).wf(),
            room_in_bounds(*room),
        ensures
            final(self).carved_from(old(self)),
            forall|x: int, y: int| room.x1 < x <= room.x2 && room.y1 < y <= room.y2
                ==> final(self).tiles@[#[trigger] idx_of(x, y)].tiletype == TileType::Floor,
            forall|px: int, py: int| in_bounds(px, py) && !in_room(*room, px, py)
                ==> #[trigger] final(self).tiles@[idx_of(px, py)] == old(self).tiles@[idx_of(px, py)],
    {
        let ghost start = *self;
        let mut y = room.y1 + 1;
        while y <= room.y2
            invariant
                room.y1 + 1 <= y <= room.y2 + 1,
                room_in_bounds(*room),
                self.carved_from(&start),
                start.wf(),
                forall|px: int, py: int| room.x1 < px <= room.x2 && room.y1 < py < y
                    ==> self.tiles@[#[trigger] idx_of(px, py)].tiletype == TileType::Floor,
                forall|px: int, py: int| in_bounds(px, py) && !in_room(*room, px, py)
                    ==> #[trigger] self.tiles@[idx_of(px, py)] == start.tiles@[idx_of(px, py)],
            decreases room.y2 + 1 - y,
        {
            let mut x = room.x1 + 1;
            while x <= room.x2
                invariant
                    room.x1 + 1 <= x <= room.x2 + 1,
                    room.y1 + 1 <= y <= room.y2,
                    room_in_bounds(*room),
                    self.carved_from(&start),
                    start.wf(),
                    forall|px: int, py: int| room.x1 < px <= room.x2 && room.y1 < py < y
                        ==> self.tiles@[#[trigger] idx_of(px, py)].tiletype == TileType::Floor,
                    forall|px: int| room.x1 < px < x
                        ==> self.tiles@[#[trigger] idx_of(px, y as int)].tiletype == TileType::Floor,
                    forall|px: int, py: int| in_bounds(px, py) && !in_room(*room, px, py)
                        ==> #[trigger] self.tiles@[idx_of(px, py)] == start.tiles@[idx_of(px, py)],
                decreases room.x2 + 1 - x,
            {
                let idx = self.xy_idx(x, y);
                let ghost before = *self;
                self.set_floor(idx);
                proof { GameMap::lemma_carved_trans(&start, &before, self); }
                assert forall|px: int, py: int| in_bounds(px, py) && !in_room(*room, px, py)
                    implies #[trigger] self.tiles@[idx_of(px, py)] == start.tiles@[idx_of(px, py)] by {
                    if idx_of(px, py) == idx {
                        lemma_idx_injective(px, py, x as int, y as int);
                    }
                    assert(0 <= idx_of(px, py) < MAPSIZE_COUNT) by (nonlinear_arith)
                        requires 0 <= px < 64, 0 <= py < 64;
                    assert(self.tiles@[idx_of(px, py)] == before.tiles@[idx_of(px, py)]);
                }
                x = x + 1;
            }
            y = y + 1;
        }
    }
}

/// Every tile inside the room is open ground.
pub open spec fn room_carved(tiles: Seq<Tile>, r: Rect) -> bool {
    forall|x: int, y: int| r.x1 < x <= r.x2 && r.y1 < y <= r.y2
        ==> tiles[#[trigger] idx_of(x, y)].tiletype != TileType::Wall
}

/// Every corridor is open, and every open tile lies in a room or on one.
pub open spec fn reach_inv(m: &GameMap) -> bool {
    &&& forall|k: int| 0 <= k < m.rooms@.len() - 1 ==> #[trigger] corridor_after(m.tiles@, m.rooms@, k)
    &&& forall|x: int, y: int| #[trigger] open_at(m.tiles@, x, y) ==> explained(m.tiles@, m.rooms@, x, y)
}

/// A room of the size the generator draws, inside the wall border.
pub open spec fn room_sized(r: Rect) -> bool {
    &&& room_in_bounds(r)
    &&& ROOM_MIN_SIZE <= r.x2 - r.x1 < ROOM_MAX_SIZE
    &&& ROOM_MIN_SIZE <= r.y2 - r.y1 < ROOM_MAX_SIZE
}

/// Whether placing `r` on `m` opens tile `(x, y)`: inside the room, or on
/// the corridor from the previous room's centre bent as `horizontal_first` says.
pub open spec fn carved_by(m: &GameMap, r: Rect, horizontal_first: bool, x: int, y: int) -> bool {
    in_room(r, x, y) || (m.rooms@.len() > 0 && if horizontal_first {
        on_hv(center_pt(m.rooms@.last()), center_pt(r), x, y)
    } else {
        on_vh(center_pt(m.rooms@.last()), center_pt(r), x, y)
    })
}

/// `new` is `old` after trying to place `r`: kept exactly when it touches
/// no earlier room, in which case exactly its tiles turn to floor.
pub open spec fn placed(old: &GameMap, new: &GameMap, r: Rect, horizontal_first: bool) -> bool {
    let kept = forall|k: int| 0 <= k < old.rooms@.len() ==> !rects_intersect(r, #[trigger] old.rooms@[k]);
    &&& new.rooms@ == (if kept { old.rooms@.push(r) } else { old.rooms@ })
    &&& forall|x: int, y: int| in_bounds(x, y) ==> #[trigger] new.tiles@[idx_of(x, y)] == (if kept && carved_by(old, r, horizontal_first, x, y) {
        Tile { tiletype: TileType::Floor, background: old.tiles@[idx_of(x, y)].background }
    } else {
        old.tiles@[idx_of(x, y)]
    })
}

/// What holds of a map at every stage of room placement.
pub open spec fn placement_inv(m: &GameMap) -> bool {
    &&& m.wf()
    &&& rooms_disjoint(m.rooms@)
    &&& forall|k: int| 0 <= k < m.rooms@.len() ==> room_in_bounds(#[trigger] m.rooms@[k])
    &&& forall|k: int| 0 <= k < m.rooms@.len() ==> room_sized(#[trigger] m.rooms@[k])
    &&& forall|k: int| 0 <= k < m.rooms@.len() ==> room_carved(m.tiles@, #[trigger] m.rooms@[k])
    &&& no_stairs(m.tiles@)
}

proof fn lemma_carved_opens(a: &GameMap, b: &GameMap)
    requires
        b.carved_from(a),
    ensures
        opens_more(a.tiles@, b.tiles@),
{
    assert forall|x: int, y: int| #[trigger] open_at(a.tiles@, x, y) implies open_at(b.tiles@, x, y) by {
        assert(0 <= idx_of(x, y) < MAPSIZE_COUNT) by (nonlinear_arith)
            requires 0 <= x < 64, 0 <= y < 64;
    }
}

proof fn lemma_carving_keeps_inv(a: &GameMap, b: &GameMap)
    requires
        placement_inv(a),
        b.carved_from(a),
    ensures
        placement_inv(b),
{
    assert forall|k: int| 0 <= k < b.rooms@.len() implies room_carved(b.tiles@, #[trigger] b.rooms@[k]) by {
        let r = b.rooms@[k];
        assert(room_carved(a.tiles@, r));
        assert forall|x: int, y: int| r.x1 < x <= r.x2 && r.y1 < y <= r.y2
            implies b.tiles@[#[trigger] idx_of(x, y)].tiletype != TileType::Wall by {
            assert(room_in_bounds(r));
            assert(0 <= idx_of(x, y) < MAPSIZE_COUNT) by (nonlinear_arith)
                requires 0 <= x < 64, 0 <= y < 64;
            assert(a.tiles@[idx_of(x, y)].tiletype != TileType::Wall);
        }
    }
    assert forall|i: int| 0 <= i < b.tiles@.len() implies (#[trigger] b.tiles@[i]).tiletype != TileType::DownStairs by {
        assert(a.tiles@[i].tiletype != TileType::DownStairs);
    }
}

impl GameMap {
    /// Draws one room: a size of `ROOM_MIN_SIZE` up to (not including)
    /// `ROOM_MAX_SIZE` each way, a position that keeps it inside the wall
    /// border, and a coin for the bend of its corridor.
    fn draw_room(rng: &mut RandomNumberGenerator) -> (r: (Rect, bool))
        ensures
            room_sized(r.0),
    {
        let w = rng_range(rng, ROOM_MIN_SIZE, ROOM_MAX_SIZE);
        let h = rng_range(rng, ROOM_MIN_SIZE, ROOM_MAX_SIZE);
        let x = roll_die(rng, (MAPSIZE_WIDTH as i32) - w - 1) - 1;
        let y = roll_die(rng, (MAPSIZE_HEIGHT as i32) - h - 1) - 1;
        let horizontal_first = rng_range(rng, 0, 2) == 1;
        (Rect::new(x, y, w, h), horizontal_first)
    }

    /// Places `new_room` if it touches no earlier room: its interior turns to
    /// floor, and so does an L-shaped corridor from the previous room's
    /// centre to its centre, along the row first when `horizontal_first`
    /// holds and along the column first otherwise. A rejected room changes
    /// nothing.
    #[verifier::rlimit(100)]
    #[verifier::spinoff_prover]
    pub fn place_room(map: &mut GameMap, new_room: Rect, horizontal_first: bool)
        requires
            placement_inv(old(map)),
            reach_inv(old(map)),
            old(map).rooms@.len() < 1000,
            room_sized(new_room),
        ensures
            placement_inv(final(map)),
            reach_inv(final(map)),
            placed(old(map), final(map), new_room, horizontal_first),
            final(map).depth == old(map).depth,
            final(map).rooms@ == old(map).rooms@
                || (final(map).rooms@.len() == old(map).rooms@.len() + 1
                    && final(map).rooms@.subrange(0, old(map).rooms@.len() as int) == old(map).rooms@),
            old(map).rooms@.len() == 0 ==> final(map).rooms@.len() == 1,
            final(map).revealed_tiles == old(map).revealed_tiles,
            final(map).visible_tiles == old(map).visible_tiles,
            final(map).blocked == old(map).blocked,
            final(map).tile_content == old(map).tile_content,
    {
        let mut ok = true;
        let mut i: usize = 0;
        while i < map.rooms.len()
            invariant
                i <= map.rooms@.len(),
                ok == forall|k: int| 0 <= k < i ==> !rects_intersect(new_room, #[trigger] map.rooms@[k]),
            decreases map.rooms@.len() - i,
        {
            if new_room.intersect(&map.rooms[i]) {
                ok = false;
            }
            i = i + 1;
        }

        if ok {
            let ghost m0 = *map;
            map.apply_room_to_map(&new_room);
            let ghost m1 = *map;
            proof { lemma_carving_keeps_inv(&m0, map); }
            let ghost mut a: (int, int) = (0, 0);
            let ghost mut b: (int, int) = (0, 0);
            let ghost mut hv: bool = true;
            if map.rooms.len() > 0 {
                let (new_x, new_y) = new_room.center();
                let last = map.rooms.len() - 1;
                assert(room_in_bounds(map.rooms@[last as int]));
                let (prev_x, prev_y) = map.rooms[last].center();
                proof {
                    a = (prev_x as int, prev_y as int);
                    b = (new_x as int, new_y as int);
                }
                if horizontal_first {
                    map.apply_horizontal_tunnel(prev_x, new_x, prev_y);
                    let ghost m2 = *map;
                    map.apply_vertical_tunnel(prev_y, new_y, new_x);
                    proof {
                        GameMap::lemma_carved_trans(&m1, &m2, map);
                        hv = true;
                        assert forall|x: int, y: int| #[trigger] on_hv(a, b, x, y) implies open_at(map.tiles@, x, y) by {
                            if y == a.1 && between(x, a.0, b.0) {
                                assert(idx_of(x, prev_y as int) > 0);
                                assert(m2.tiles@[idx_of(x, prev_y as int)].tiletype == TileType::Floor);
                                assert(0 <= idx_of(x, y) < MAPSIZE_COUNT) by (nonlinear_arith)
                                    requires 0 <= x < 64, 0 <= y < 64;
                                assert(map.tiles@[idx_of(x, y)] == m2.tiles@[idx_of(x, y)]
                                    || map.tiles@[idx_of(x, y)] == (Tile { tiletype: TileType::Floor, background: m2.tiles@[idx_of(x, y)].background }));
                            } else {
                                assert(idx_of(new_x as int, y) > 0);
                            }
                        }
                        assert forall|x: int, y: int| in_bounds(x, y) && #[trigger] map.tiles@[idx_of(x, y)] != m1.tiles@[idx_of(x, y)]
                            implies on_hv(a, b, x, y) by {
                            if !on_hv(a, b, x, y) {
                                assert(m2.tiles@[idx_of(x, y)] == m1.tiles@[idx_of(x, y)]);
                            }
                        }
                    }
                } else {
                    map.apply_vertical_tunnel(prev_y, new_y, prev_x);
                    let ghost m2 = *map;
                    map.apply_horizontal_tunnel(prev_x, new_x, new_y);
                    proof {
                        GameMap::lemma_carved_trans(&m1, &m2, map);
                        hv = false;
                        assert forall|x: int, y: int| #[trigger] on_vh(a, b, x, y) implies open_at(map.tiles@, x, y) by {
                            if x == a.0 && between(y, a.1, b.1) {
                                assert(idx_of(prev_x as int, y) > 0);
                                assert(m2.tiles@[idx_of(prev_x as int, y)].tiletype == TileType::Floor);
                                assert(0 <= idx_of(x, y) < MAPSIZE_COUNT) by (nonlinear_arith)
                                    requires 0 <= x < 64, 0 <= y < 64;
                                assert(map.tiles@[idx_of(x, y)] == m2.tiles@[idx_of(x, y)]
                                    || map.tiles@[idx_of(x, y)] == (Tile { tiletype: TileType::Floor, background: m2.tiles@[idx_of(x, y)].background }));
                            } else {
                                assert(idx_of(x, new_y as int) > 0);
                            }
                        }
                        assert forall|x: int, y: int| in_bounds(x, y) && #[trigger] map.tiles@[idx_of(x, y)] != m1.tiles@[idx_of(x, y)]
                            implies on_vh(a, b, x, y) by {
                            if !on_vh(a, b, x, y) {
                                assert(m2.tiles@[idx_of(x, y)] == m1.tiles@[idx_of(x, y)]);
                            }
                        }
                    }
                }
                proof {
                    GameMap::lemma_carved_trans(&m0, &m1, map);
                    lemma_carving_keeps_inv(&m0, map);
                }
            }
            let ghost m3 = *map;
            assert(m3.carved_from(&m0));
            assert(m0.rooms@.len() > 0 ==> (if hv { hv_open(m3.tiles@, a, b) } else { vh_open(m3.tiles@, a, b) }));
            assert forall|x: int, y: int| in_bounds(x, y) && #[trigger] m3.tiles@[idx_of(x, y)] != m1.tiles@[idx_of(x, y)]
                implies m0.rooms@.len() > 0 && (if hv { on_hv(a, b, x, y) } else { on_vh(a, b, x, y) }) by {}
            assert(room_carved(m3.tiles@, new_room)) by {
                assert forall|px: int, py: int| new_room.x1 < px <= new_room.x2 && new_room.y1 < py <= new_room.y2
                    implies m3.tiles@[#[trigger] idx_of(px, py)].tiletype != TileType::Wall by {
                    assert(0 <= idx_of(px, py) < MAPSIZE_COUNT) by (nonlinear_arith)
                        requires 0 <= px < 64, 0 <= py < 64;
                }
            }
            map.rooms.push(new_room);
            assert(map.rooms@.subrange(0, m3.rooms@.len() as int) =~= m3.rooms@);
            assert forall|i: int, j: int| 0 <= i < j < map.rooms@.len()
                implies !rects_intersect(#[trigger] map.rooms@[i], #[trigger] map.rooms@[j]) by {
                if j == m3.rooms@.len() {
                    assert(!rects_intersect(new_room, m3.rooms@[i]));
                }
            }
            proof {
                let n0 = m0.rooms@.len() as int;
                let t0 = m0.tiles@;
                let t = map.tiles@;
                let rs = map.rooms@;
                lemma_carved_opens(&m0, &m3);
                assert(t == m3.tiles@);
                assert(rs[n0] == new_room);
                assert forall|k: int| 0 <= k < n0 implies rs[k] == m0.rooms@[k] by {}
                if n0 > 0 {
                    assert(a == center_pt(rs[n0 - 1]));
                    assert(b == center_pt(rs[n0]));
                }
                assert forall|k: int| 0 <= k < rs.len() - 1 implies #[trigger] corridor_after(t, rs, k) by {
                    if k < n0 - 1 {
                        assert(corridor_after(t0, m0.rooms@, k));
                        lemma_corridor_mono(t0, t, center_pt(rs[k]), center_pt(rs[k + 1]));
                    }
                }
                assert forall|x: int, y: int| #[trigger] open_at(t, x, y) implies explained(t, rs, x, y) by {
                    if open_at(t0, x, y) {
                        lemma_explained_mono(t0, t, m0.rooms@, rs, x, y);
                    } else {
                        assert(t[idx_of(x, y)] != t0[idx_of(x, y)]);
                        if in_room(new_room, x, y) {
                            assert(in_room(rs[n0], x, y));
                        } else {
                            assert(m1.tiles@[idx_of(x, y)] == t0[idx_of(x, y)]);
                            assert(m3.tiles@[idx_of(x, y)] != m1.tiles@[idx_of(x, y)]);
                            if hv {
                                assert(on_hv(a, b, x, y));
                                assert(hv_open(t, center_pt(rs[n0 - 1]), center_pt(rs[n0 - 1 + 1])));
                            } else {
                                assert(on_vh(a, b, x, y));
                                assert(vh_open(t, center_pt(rs[n0 - 1]), center_pt(rs[n0 - 1 + 1])));
                            }
                        }
                    }
                }
            }
        }
    }
}

/// The rooms kept after trying the first `k` drawn rooms in order, starting
/// from `start`: a drawn room is kept when it touches none kept before it.
pub open spec fn rooms_after(start: Seq<Rect>, draws: Seq<(Rect, bool)>, k: int) -> Seq<Rect>
    decreases k,
{
    if k <= 0 {
        start
    } else {
        let prev = rooms_after(start, draws, k - 1);
        let r = draws[k - 1].0;
        if forall|j: int| 0 <= j < prev.len() ==> !rects_intersect(r, #[trigger] prev[j]) { prev.push(r) } else { prev }
    }
}

/// The rooms kept after `n` rounds of `TRY_ROOMS` draws.
pub open spec fn rooms_after_rounds(start: Seq<Rect>, draws: Seq<(Rect, bool)>, n: int) -> Seq<Rect> {
    rooms_after(start, draws, TRY_ROOMS * n)
}

/// One placement attempt as `place_room` performs it.
pub open spec fn place_step(a: GameMap, b: GameMap, d: (Rect, bool)) -> bool {
    &&& placed(&a, &b, d.0, d.1)
    &&& b.wf()
    &&& b.depth == a.depth
    &&& b.revealed_tiles == a.revealed_tiles
    &&& b.visible_tiles == a.visible_tiles
    &&& b.blocked == a.blocked
    &&& b.tile_content == a.tile_content
}

/// `m` is `start` after the first `k` drawn rooms were tried in order.
pub open spec fn placed_all(start: GameMap, m: GameMap, draws: Seq<(Rect, bool)>, k: int) -> bool
    decreases k,
{
    if k <= 0 {
        m == start
    } else {
        exists|mid: GameMap| placed_all(start, mid, draws, k - 1) && #[trigger] place_step(mid, m, draws[k - 1])
    }
}

proof fn lemma_placed_step(start: GameMap, mid: GameMap, m: GameMap, draws: Seq<(Rect, bool)>, k: int)
    requires
        k >= 0,
        placed_all(start, mid, draws, k),
        place_step(mid, m, draws[k]),
    ensures
        placed_all(start, m, draws, k + 1),
{
    assert(place_step(mid, m, draws[(k + 1) - 1]));
}

impl GameMap {
    /// Places drawn rooms in rounds of `TRY_ROOMS`, trying them in order,
    /// until `MIN_ROOMS` rooms are kept or `MAX_ROUNDS` rounds have passed.
    /// Returns the map and the number of rounds used.
    pub fn place_rounds(map: GameMap, draws: &Vec<(Rect, bool)>) -> (r: (GameMap, i32))
        requires
            placement_inv(&map),
            reach_inv(&map),
            map.rooms@.len() == 0,
            draws@.len() == TRY_ROOMS * MAX_ROUNDS,
            forall|k: int| 0 <= k < draws@.len() ==> room_sized(#[trigger] draws@[k].0),
        ensures
            placement_inv(&r.0),
            reach_inv(&r.0),
            r.0.depth == map.depth,
            r.0.revealed_tiles == map.revealed_tiles,
            r.0.visible_tiles == map.visible_tiles,
            r.0.blocked == map.blocked,
            r.0.tile_content == map.tile_content,
            1 <= r.1 <= MAX_ROUNDS,
            1 <= r.0.rooms@.len() <= TRY_ROOMS * r.1,
            placed_all(map, r.0, draws@, TRY_ROOMS * r.1),
            r.0.rooms@ == rooms_after_rounds(map.rooms@, draws@, r.1 as int),
            forall|j: int| 1 <= j < r.1 ==> (#[trigger] rooms_after_rounds(map.rooms@, draws@, j)).len() < MIN_ROOMS,
            r.0.rooms@.len() >= MIN_ROOMS || r.1 == MAX_ROUNDS,
    {
        let ghost start = map;
        let mut map = map;
        let mut rounds: i32 = 0;
        while map.rooms.len() < MIN_ROOMS as usize && rounds < MAX_ROUNDS
            invariant
                placement_inv(&map),
                reach_inv(&map),
                map.depth == start.depth,
                map.revealed_tiles == start.revealed_tiles,
                map.visible_tiles == start.visible_tiles,
                map.blocked == start.blocked,
                map.tile_content == start.tile_content,
                0 <= rounds <= MAX_ROUNDS,
                draws@.len() == TRY_ROOMS * MAX_ROUNDS,
                forall|k: int| 0 <= k < draws@.len() ==> room_sized(#[trigger] draws@[k].0),
                map.rooms@.len() <= TRY_ROOMS * rounds,
                rounds > 0 ==> map.rooms@.len() >= 1,
                rounds == 0 ==> map.rooms@.len() == 0,
                placed_all(start, map, draws@, TRY_ROOMS * rounds),
                map.rooms@ == rooms_after(start.rooms@, draws@, TRY_ROOMS * rounds),
                forall|j: int| 1 <= j < rounds ==> (#[trigger] rooms_after_rounds(start.rooms@, draws@, j)).len() < MIN_ROOMS,
            decreases MAX_ROUNDS - rounds,
        {
            let ghost n0 = map.rooms@.len();
            assert(rooms_after_rounds(start.rooms@, draws@, rounds as int).len() < MIN_ROOMS);
            let mut t: i32 = 0;
            while t < TRY_ROOMS
                invariant
                    0 <= t <= TRY_ROOMS,
                    0 <= rounds < MAX_ROUNDS,
                    placement_inv(&map),
                    reach_inv(&map),
                    map.depth == start.depth,
                    map.revealed_tiles == start.revealed_tiles,
                    map.visible_tiles == start.visible_tiles,
                    map.blocked == start.blocked,
                    map.tile_content == start.tile_content,
                    draws@.len() == TRY_ROOMS * MAX_ROUNDS,
                    forall|k: int| 0 <= k < draws@.len() ==> room_sized(#[trigger] draws@[k].0),
                    n0 <= map.rooms@.len() <= n0 + t,
                    n0 < MIN_ROOMS,
                    n0 <= TRY_ROOMS * rounds,
                    t > 0 ==> map.rooms@.len() >= 1,
                    rounds > 0 ==> map.rooms@.len() >= 1,
                    placed_all(start, map, draws@, TRY_ROOMS * rounds + t),
                    map.rooms@ == rooms_after(start.rooms@, draws@, TRY_ROOMS * rounds + t),
                decreases TRY_ROOMS - t,
            {
                let k: usize = (TRY_ROOMS * rounds + t) as usize;
                let d = draws[k];
                let ghost before = map;
                assert(room_sized(draws@[k as int].0));
                GameMap::place_room(&mut map, d.0, d.1);
                proof {
                    assert(place_step(before, map, draws@[k as int]));
                    lemma_placed_step(start, before, map, draws@, k as int);
                    assert(map.rooms@ == rooms_after(start.rooms@, draws@, k as int + 1));
                }
                t = t + 1;
            }
            rounds = rounds + 1;
        }
        (map, rounds)
    }
}

/// What a finished level satisfies.
pub open spec fn generated_map(m: &GameMap, depth: i32) -> bool {
    &&& m.wf()
    &&& m.depth == depth
    &&& 1 <= m.rooms@.len() <= 3 * MAX_ROUNDS
    &&& rooms_disjoint(m.rooms@)
    &&& forall|k: int| 0 <= k < m.rooms@.len() ==> room_in_bounds(#[trigger] m.rooms@[k])
    &&& forall|k: int| 0 <= k < m.rooms@.len() ==> room_sized(#[trigger] m.rooms@[k])
    &&& forall|k: int| 0 <= k < m.rooms@.len() ==> room_carved(m.tiles@, #[trigger] m.rooms@[k])
    &&& forall|x: int, y: int| in_bounds(x, y) && (x == 0 || y == 0 || x == m.width - 1 || y == m.height - 1)
        ==> (#[trigger] m.tiles@[idx_of(x, y)]).tiletype == TileType::Wall
    &&& only_stairs_at(m.tiles@, idx_of(center_of(m.rooms@.last()).0, center_of(m.rooms@.last()).1))
    &&& fresh_overlay(m)
    &&& forall|x: int, y: int| #[trigger] open_at(m.tiles@, x, y) ==> connected(m.tiles@, center_pt(m.rooms@[0]), (x, y))
}

proof fn lemma_same_openness(a: &GameMap, b: &GameMap)
    requires
        a.wf(),
        b.wf(),
        b.rooms == a.rooms,
        forall|i: int| 0 <= i < MAPSIZE_COUNT ==> ((#[trigger] b.tiles@[i]).tiletype == TileType::Wall) == (a.tiles@[i].tiletype == TileType::Wall),
        reach_inv(a),
    ensures
        reach_inv(b),
{
    assert forall|x: int, y: int| #[trigger] open_at(a.tiles@, x, y) implies open_at(b.tiles@, x, y) by {
        assert(0 <= idx_of(x, y) < MAPSIZE_COUNT) by (nonlinear_arith)
            requires 0 <= x < 64, 0 <= y < 64;
    }
    assert forall|x: int, y: int| #[trigger] open_at(b.tiles@, x, y) implies open_at(a.tiles@, x, y) by {
        assert(0 <= idx_of(x, y) < MAPSIZE_COUNT) by (nonlinear_arith)
            requires 0 <= x < 64, 0 <= y < 64;
    }
    assert forall|k: int| 0 <= k < b.rooms@.len() - 1 implies #[trigger] corridor_after(b.tiles@, b.rooms@, k) by {
        assert(corridor_after(a.tiles@, a.rooms@, k));
        lemma_corridor_mono(a.tiles@, b.tiles@, center_pt(a.rooms@[k]), center_pt(a.rooms@[k + 1]));
    }
    assert forall|x: int, y: int| #[trigger] open_at(b.tiles@, x, y) implies explained(b.tiles@, b.rooms@, x, y) by {
        assert(open_at(a.tiles@, x, y));
        lemma_explained_mono(a.tiles@, b.tiles@, a.rooms@, b.rooms@, x, y);
    }
}

proof fn lemma_border_walls(m: &GameMap)
    requires
        m.wf(),
        forall|k: int| 0 <= k < m.rooms@.len() ==> room_in_bounds(#[trigger] m.rooms@[k]),
        reach_inv(m),
    ensures
        forall|x: int, y: int| in_bounds(x, y) && (x == 0 || y == 0 || x == m.width - 1 || y == m.height - 1)
            ==> (#[trigger] m.tiles@[idx_of(x, y)]).tiletype == TileType::Wall,
{
    assert forall|x: int, y: int| in_bounds(x, y) && (x == 0 || y == 0 || x == m.width - 1 || y == m.height - 1)
        implies (#[trigger] m.tiles@[idx_of(x, y)]).tiletype == TileType::Wall by {
        if m.tiles@[idx_of(x, y)].tiletype != TileType::Wall {
            assert(open_at(m.tiles@, x, y));
            assert(explained(m.tiles@, m.rooms@, x, y));
            let rs = m.rooms@;
            if exists|k: int| 0 <= k < rs.len() && #[trigger] in_room(rs[k], x, y) {
                let k = choose|k: int| 0 <= k < rs.len() && #[trigger] in_room(rs[k], x, y);
                assert(room_in_bounds(rs[k]));
            } else if exists|k: int| 0 <= k < rs.len() - 1 && (#[trigger] hv_open(m.tiles@, center_pt(rs[k]), center_pt(rs[k + 1]))
                && on_hv(center_pt(rs[k]), center_pt(rs[k + 1]), x, y)) {
                let k = choose|k: int| 0 <= k < rs.len() - 1 && (#[trigger] hv_open(m.tiles@, center_pt(rs[k]), center_pt(rs[k + 1]))
                    && on_hv(center_pt(rs[k]), center_pt(rs[k + 1]), x, y));
                assert(room_in_bounds(rs[k]) && room_in_bounds(rs[k + 1]));
            } else {
                let k = choose|k: int| 0 <= k < rs.len() - 1 && (#[trigger] vh_open(m.tiles@, center_pt(rs[k]), center_pt(rs[k + 1]))
                    && on_vh(center_pt(rs[k]), center_pt(rs[k + 1]), x, y));
                assert(room_in_bounds(rs[k]) && room_in_bounds(rs[k + 1]));
            }
        }
    }
}

proof fn lemma_level_reachable(m: &GameMap)
    requires
        m.wf(),
        forall|k: int| 0 <= k < m.rooms@.len() ==> room_in_bounds(#[trigger] m.rooms@[k]),
        forall|k: int| 0 <= k < m.rooms@.len() ==> room_carved(m.tiles@, #[trigger] m.rooms@[k]),
        reach_inv(m),
        m.rooms@.len() >= 1,
    ensures
        forall|x: int, y: int| #[trigger] open_at(m.tiles@, x, y) ==> connected(m.tiles@, center_pt(m.rooms@[0]), (x, y)),
{
    let rs = m.rooms@;
    assert forall|k: int| 0 <= k < rs.len() implies (#[trigger] rs[k]).x1 + 2 <= rs[k].x2 && rs[k].y1 + 2 <= rs[k].y2 by {
        assert(room_in_bounds(rs[k]));
    }
    assert forall|k: int, px: int, py: int| 0 <= k < rs.len() && #[trigger] in_room(rs[k], px, py) implies open_at(m.tiles@, px, py) by {
        assert(room_in_bounds(rs[k]));
        assert(room_carved(m.tiles@, rs[k]));
        assert(m.tiles@[idx_of(px, py)].tiletype != TileType::Wall);
    }
    lemma_all_reachable(m.tiles@, rs);
}

impl GameMap {
    /// Gives every tile a fresh decorative shade.
    pub fn set_background(&mut self, rng: &mut RandomNumberGenerator)
        requires
            old(self).wf(),
        ensures
            final(self).wf(),
            final(self).rooms == old(self).rooms,
            final(self).depth == old(self).depth,
            final(self).revealed_tiles == old(self).revealed_tiles,
            final(self).visible_tiles == old(self).visible_tiles,
            final(self).blocked == old(self).blocked,
            final(self).tile_content == old(self).tile_content,
            forall|i: int| 0 <= i < MAPSIZE_COUNT ==> (#[trigger] final(self).tiles@[i]).tiletype == old(self).tiles@[i].tiletype,
    {
        let mut i: usize = 0;
        while i < self.tiles.len()
            invariant
                i <= self.tiles@.len(),
                self.wf(),
                self.rooms == old(self).rooms,
                self.depth == old(self).depth,
                self.revealed_tiles == old(self).revealed_tiles,
                self.visible_tiles == old(self).visible_tiles,
                self.blocked == old(self).blocked,
                self.tile_content == old(self).tile_content,
                forall|k: int| 0 <= k < MAPSIZE_COUNT ==> (#[trigger] self.tiles@[k]).tiletype == old(self).tiles@[k].tiletype,
            decreases self.tiles@.len() - i,
        {
            self.tiles[i].set_background(rng);
            i = i + 1;
        }
    }

    /// Builds a level: rooms are placed in rounds of `TRY_ROOMS` attempts until
    /// there are `MIN_ROOMS` of them (or `MAX_ROUNDS` rounds have passed), then
    /// tiles are shaded and the centre of the last room becomes the stairs
    /// down. Also returns the number of rounds used.
    pub fn new_map_rooms_and_corridors(depth: i32, rng: &mut RandomNumberGenerator) -> (r: (GameMap, i32))
        ensures
            generated_map(&r.0, depth),
            1 <= r.1 <= MAX_ROUNDS,
            r.0.rooms@.len() >= MIN_ROOMS || r.1 == MAX_ROUNDS,
    {
        let map = GameMap::new_filled(depth);
        assert(no_stairs(map.tiles@));
        assert forall|x: int, y: int| #[trigger] open_at(map.tiles@, x, y) implies explained(map.tiles@, map.rooms@, x, y) by {
            assert(0 <= idx_of(x, y) < MAPSIZE_COUNT) by (nonlinear_arith)
                requires 0 <= x < 64, 0 <= y < 64;
        }
        let mut draws: Vec<(Rect, bool)> = Vec::new();
        while draws.len() < (TRY_ROOMS * MAX_ROUNDS) as usize
            invariant
                draws@.len() <= TRY_ROOMS * MAX_ROUNDS,
                forall|k: int| 0 <= k < draws@.len() ==> room_sized(#[trigger] draws@[k].0),
            decreases TRY_ROOMS * MAX_ROUNDS - draws@.len(),
        {
            let d = GameMap::draw_room(rng);
            draws.push(d);
            assert(draws@[draws@.len() - 1] == d);
        }
        let (placed_map, rounds) = GameMap::place_rounds(map, &draws);
        let mut map = placed_map;
        let ghost m0 = map;
        map.set_background(rng);
        proof { lemma_same_openness(&m0, &map); }
        assert(placement_inv(&map)) by {
            assert forall|k: int| 0 <= k < map.rooms@.len() implies room_carved(map.tiles@, #[trigger] map.rooms@[k]) by {
                let r = map.rooms@[k];
                assert(room_carved(m0.tiles@, r));
                assert(room_in_bounds(r));
                assert forall|x: int, y: int| r.x1 < x <= r.x2 && r.y1 < y <= r.y2
                    implies map.tiles@[#[trigger] idx_of(x, y)].tiletype != TileType::Wall by {
                    assert(0 <= idx_of(x, y) < MAPSIZE_COUNT) by (nonlinear_arith)
                        requires 0 <= x < 64, 0 <= y < 64;
                }
            }
            assert forall|i: int| 0 <= i < map.tiles@.len() implies (#[trigger] map.tiles@[i]).tiletype != TileType::DownStairs by {
                assert(m0.tiles@[i].tiletype != TileType::DownStairs);
            }
        }
        let last = map.rooms.len() - 1;
        assert(room_in_bounds(map.rooms@[last as int]));
        let stairs_position = map.rooms[last].center();
        let stairs_idx = map.xy_idx(stairs_position.0, stairs_position.1);
        let ghost m1 = map;
        map.tiles[stairs_idx].tiletype = TileType::DownStairs;
        assert forall|k: int| 0 <= k < map.rooms@.len() implies room_carved(map.tiles@, #[trigger] map.rooms@[k]) by {
            let r = map.rooms@[k];
            assert(room_carved(m1.tiles@, r));
            assert(room_in_bounds(r));
            assert forall|x: int, y: int| r.x1 < x <= r.x2 && r.y1 < y <= r.y2
                implies map.tiles@[#[trigger] idx_of(x, y)].tiletype != TileType::Wall by {
                assert(0 <= idx_of(x, y) < MAPSIZE_COUNT) by (nonlinear_arith)
                    requires 0 <= x < 64, 0 <= y < 64;
            }
        }
        assert forall|i: int| 0 <= i < map.tiles@.len() && i != stairs_idx implies
            (#[trigger] map.tiles@[i]).tiletype != TileType::DownStairs by {
            assert(m1.tiles@[i].tiletype != TileType::DownStairs);
        }
        proof {
            let r = m1.rooms@[last as int];
            let c = center_of(r);
            assert(in_room(r, c.0, c.1));
            assert(room_carved(m1.tiles@, r));
            assert(m1.tiles@[stairs_idx as int].tiletype != TileType::Wall);
            assert forall|i: int| 0 <= i < MAPSIZE_COUNT implies ((#[trigger] map.tiles@[i]).tiletype == TileType::Wall)
                == (m1.tiles@[i].tiletype == TileType::Wall) by {
                if i != stairs_idx {
                    assert(map.tiles@[i] == m1.tiles@[i]);
                }
            }
            lemma_same_openness(&m1, &map);
            lemma_level_reachable(&map);
            lemma_border_walls(&map);
        }
        (map, rounds)
    }

    /// Sets `blocked` to exactly the wall tiles.
    pub fn populate_blocked(&mut self)
        requires
            old(self).wf(),
        ensures
            final(self).wf(),
            final(self).tiles == old(self).tiles,
            final(self).rooms == old(self).rooms,
            final(self).depth == old(self).depth,
            final(self).revealed_tiles == old(self).revealed_tiles,
            final(self).visible_tiles == old(self).visible_tiles,
            final(self).tile_content == old(self).tile_content,
            forall|i: int| 0 <= i < MAPSIZE_COUNT ==> #[trigger] final(self).blocked@[i] == old(self).is_wall(i),
    {
        let mut i: usize = 0;
        while i < self.tiles.len()
            invariant
                i <= MAPSIZE_COUNT,
                self.wf(),
                self.tiles == old(self).tiles,
                self.rooms == old(self).rooms,
                self.depth == old(self).depth,
                self.revealed_tiles == old(self).revealed_tiles,
                self.visible_tiles == old(self).visible_tiles,
                self.tile_content == old(self).tile_content,
                forall|k: int| 0 <= k < i ==> #[trigger] self.blocked@[k] == old(self).is_wall(k),
            decreases MAPSIZE_COUNT - i,
        {
            let wall = self.tiles[i].tiletype == TileType::Wall;
            self.blocked.set(i, wall);
            i = i + 1;
        }
    }

    /// Empties every tile's occupant list.
    pub fn clear_content_index(&mut self)
        requires
            old(self).wf(),
        ensures
            final(self).wf(),
            final(self).tiles == old(self).tiles,
            final(self).rooms == old(self).rooms,
            final(self).depth == old(self).depth,
            final(self).revealed_tiles == old(self).revealed_tiles,
            final(self).visible_tiles == old(self).visible_tiles,
            final(self).blocked == old(self).blocked,
            forall|i: int| 0 <= i < MAPSIZE_COUNT ==> (#[trigger] final(self).tile_content@[i])@.len() == 0,
    {
        let mut i: usize = 0;
        while i < self.tile_content.len()
            invariant
                i <= MAPSIZE_COUNT,
                self.wf(),
                self.tiles == old(self).tiles,
                self.rooms == old(self).rooms,
                self.depth == old(self).depth,
                self.revealed_tiles == old(self).revealed_tiles,
                self.visible_tiles == old(self).visible_tiles,
                self.blocked == old(self).blocked,
                forall|k: int| 0 <= k < i ==> (#[trigger] self.tile_content@[k])@.len() == 0,
            decreases MAPSIZE_COUNT - i,
        {
            self.tile_content.set(i, Vec::new());
            i = i + 1;
        }
    }

    /// Walls block sight; everything else is transparent.
    pub fn is_opaque(&self, idx: usize) -> (r: bool)
        requires
            self.wf(),
            idx < MAPSIZE_COUNT,
        ensures
            r == self.is_wall(idx as int),
    {
        self.tiles[idx].tiletype == TileType::Wall
    }
}

/// Step cost along a row or column, in hundredths of a tile.
pub const ORTHOGONAL_COST: i32 = 100;
/// Step cost along a diagonal, in hundredths of a tile.
pub const DIAGONAL_COST: i32 = 145;

pub open spec fn exit_ok(m: &GameMap, x: int, y: int) -> bool {
    1 <= x <= m.width - 1 && 1 <= y <= m.height - 1 && !m.blocked@[idx_of(x, y)]
}

pub open spec fn exit_step(m: &GameMap, x: int, y: int, cost: i32) -> Seq<(usize, i32)> {
    if exit_ok(m, x, y) { seq![(idx_of(x, y) as usize, cost)] } else { seq![] }
}

/// The tiles a creature on `(x, y)` may move to, with their costs: the four
/// orthogonal neighbours first (west, east, north, south), then the diagonals
/// (north-west, north-east, south-west, south-east).
pub open spec fn exits_of(m: &GameMap, x: int, y: int) -> Seq<(usize, i32)> {
    exit_step(m, x - 1, y, ORTHOGONAL_COST) + exit_step(m, x + 1, y, ORTHOGONAL_COST)
        + exit_step(m, x, y - 1, ORTHOGONAL_COST) + exit_step(m, x, y + 1, ORTHOGONAL_COST)
        + exit_step(m, x - 1, y - 1, DIAGONAL_COST) + exit_step(m, x + 1, y - 1, DIAGONAL_COST)
        + exit_step(m, x - 1, y + 1, DIAGONAL_COST) + exit_step(m, x + 1, y + 1, DIAGONAL_COST)
}

impl GameMap {
    fn push_exit(&self, exits: &mut Vec<(usize, i32)>, x: i32, y: i32, cost: i32)
        requires
            self.wf(),
            -1 <= x <= 64,
            -1 <= y <= 64,
        ensures
            final(exits)@ == old(exits)@ + exit_step(self, x as int, y as int, cost),
    {
        if self.is_exit_valid(x, y) {
            let idx = self.xy_idx(x, y);
            exits.push((idx, cost));
            assert(final(exits)@ =~= old(exits)@ + exit_step(self, x as int, y as int, cost));
        } else {
            assert(final(exits)@ =~= old(exits)@ + exit_step(self, x as int, y as int, cost));
        }
    }

    /// The neighbours of tile `idx` that can be walked onto, for path search.
    pub fn get_available_exits(&self, idx: usize) -> (r: Vec<(usize, i32)>)
        requires
            self.wf(),
            idx < MAPSIZE_COUNT,
        ensures
            r@ == exits_of(self, idx as int % 64, idx as int / 64),
    {
        let x = (idx % 64) as i32;
        let y = (idx / 64) as i32;
        let mut exits: Vec<(usize, i32)> = Vec::new();
        self.push_exit(&mut exits, x - 1, y, ORTHOGONAL_COST);
        self.push_exit(&mut exits, x + 1, y, ORTHOGONAL_COST);
        self.push_exit(&mut exits, x, y - 1, ORTHOGONAL_COST);
        self.push_exit(&mut exits, x, y + 1, ORTHOGONAL_COST);
        self.push_exit(&mut exits, x - 1, y - 1, DIAGONAL_COST);
        self.push_exit(&mut exits, x + 1, y - 1, DIAGONAL_COST);
        self.push_exit(&mut exits, x - 1, y + 1, DIAGONAL_COST);
        self.push_exit(&mut exits, x + 1, y + 1, DIAGONAL_COST);
        assert(exits@ =~= exits_of(self, idx as int % 64, idx as int / 64));
        exits
    }
}

/// Every generated level has at least one room, rooms are 5 to 14 tiles
/// each way and never touch, the outer ring is wall, every room's interior
/// is open ground, every open tile can be walked to from
/// the centre of the first room, and exactly one tile, the centre of the
/// last room, leads down.
pub proof fn lemma_generated_level(m: &GameMap, depth: i32)
    requires
        generated_map(m, depth),
    ensures
        m.rooms@.len() >= 1,
        forall|i: int, j: int| 0 <= i < j < m.rooms@.len() ==> !rects_intersect(#[trigger] m.rooms@[i], #[trigger] m.rooms@[j]),
        forall|k: int| 0 <= k < m.rooms@.len() ==> room_carved(m.tiles@, #[trigger] m.rooms@[k]),
        forall|k: int| 0 <= k < m.rooms@.len() ==> room_sized(#[trigger] m.rooms@[k]),
        forall|x: int, y: int| in_bounds(x, y) && (x == 0 || y == 0 || x == m.width - 1 || y == m.height - 1)
            ==> (#[trigger] m.tiles@[idx_of(x, y)]).tiletype == TileType::Wall,
        forall|x: int, y: int| #[trigger] open_at(m.tiles@, x, y) ==> connected(m.tiles@, center_pt(m.rooms@[0]), (x, y)),
        exists|s: int| only_stairs_at(m.tiles@, s),
        forall|s1: int, s2: int| only_stairs_at(m.tiles@, s1) && only_stairs_at(m.tiles@, s2) ==> s1 == s2,
{
    let c = center_of(m.rooms@.last());
    assert(only_stairs_at(m.tiles@, idx_of(c.0, c.1)));
}

/// Whether `b` is among the exits of tile `a` (at some cost).
pub open spec fn exit_edge(m: &GameMap, a: (int, int), b: (int, int)) -> bool {
    exists|c: i32| #[trigger] exits_of(m, a.0, a.1).contains((idx_of(b.0, b.1) as usize, c))
}

proof fn lemma_contains_concat(s1: Seq<(usize, i32)>, s2: Seq<(usize, i32)>, v: (usize, i32))
    ensures
        s1.contains(v) ==> (s1 + s2).contains(v),
        s2.contains(v) ==> (s1 + s2).contains(v),
{
    if s1.contains(v) {
        let i = choose|i: int| 0 <= i < s1.len() && s1[i] == v;
        assert((s1 + s2)[i] == v);
    }
    if s2.contains(v) {
        let i = choose|i: int| 0 <= i < s2.len() && s2[i] == v;
        assert((s1 + s2)[s1.len() + i] == v);
    }
}

proof fn lemma_step_is_exit(m: &GameMap, x: int, y: int, dx: int, dy: int)
    requires
        m.wf(),
        -1 <= dx <= 1,
        -1 <= dy <= 1,
        dx != 0 || dy != 0,
        exit_ok(m, x + dx, y + dy),
    ensures
        exit_edge(m, (x, y), (x + dx, y + dy)),
{
    let v_o = (idx_of(x + dx, y + dy) as usize, ORTHOGONAL_COST);
    let v_d = (idx_of(x + dx, y + dy) as usize, DIAGONAL_COST);
    let west = exit_step(m, x - 1, y, ORTHOGONAL_COST);
    let east = exit_step(m, x + 1, y, ORTHOGONAL_COST);
    let north = exit_step(m, x, y - 1, ORTHOGONAL_COST);
    let south = exit_step(m, x, y + 1, ORTHOGONAL_COST);
    let north_west = exit_step(m, x - 1, y - 1, DIAGONAL_COST);
    let north_east = exit_step(m, x + 1, y - 1, DIAGONAL_COST);
    let south_west = exit_step(m, x - 1, y + 1, DIAGONAL_COST);
    let south_east = exit_step(m, x + 1, y + 1, DIAGONAL_COST);
    let upto_east = west + east;
    let upto_north = upto_east + north;
    let upto_south = upto_north + south;
    let upto_nw = upto_south + north_west;
    let upto_ne = upto_nw + north_east;
    let upto_sw = upto_ne + south_west;
    let all_exits = upto_sw + south_east;
    assert(all_exits == exits_of(m, x, y));
    let v = if dx == 0 || dy == 0 { v_o } else { v_d };
    assert(seq![v][0] == v);
    lemma_contains_concat(west, east, v);
    lemma_contains_concat(upto_east, north, v);
    lemma_contains_concat(upto_north, south, v);
    lemma_contains_concat(upto_south, north_west, v);
    lemma_contains_concat(upto_nw, north_east, v);
    lemma_contains_concat(upto_ne, south_west, v);
    lemma_contains_concat(upto_sw, south_east, v);
    assert(all_exits.contains(v));
    assert(v == (idx_of(x + dx, y + dy) as usize, v.1));
    assert(exits_of(m, (x, y).0, (x, y).1).contains((idx_of((x + dx, y + dy).0, (x + dx, y + dy).1) as usize, v.1)));
}

/// With the blocked flags set to exactly the walls, every step of a walk
/// over a generated level is an exit that path search may take.
pub proof fn lemma_walk_uses_exits(g: &GameMap, m: &GameMap, depth: i32, s: Seq<(int, int)>)
    requires
        generated_map(g, depth),
        *m == (GameMap { blocked: m.blocked, ..*g }),
        m.blocked@.len() == MAPSIZE_COUNT,
        forall|t: int| 0 <= t < MAPSIZE_COUNT ==> #[trigger] m.blocked@[t] == m.is_wall(t),
        is_walk(m.tiles@, s),
    ensures
        forall|i: int| 0 <= i < s.len() - 1 ==> #[trigger] s[i + 1] == s[i] || exit_edge(m, s[i], s[i + 1]),
{
    assert forall|i: int| 0 <= i < s.len() - 1 implies #[trigger] s[i + 1] == s[i] || exit_edge(m, s[i], s[i + 1]) by {
        let a = s[i];
        let b = s[i + 1];
        assert(open_at(m.tiles@, b.0, b.1));
        assert(open_at(m.tiles@, a.0, a.1));
        assert(m.tiles == g.tiles && m.width == g.width && m.height == g.height);
        if b != a {
            let t = idx_of(b.0, b.1);
            assert(0 <= t < MAPSIZE_COUNT) by (nonlinear_arith)
                requires 0 <= b.0 < 64, 0 <= b.1 < 64, t == b.1 * 64 + b.0;
            assert(!(b.0 == 0 || b.1 == 0 || b.0 == 63 || b.1 == 63));
            assert(exit_ok(m, a.0 + (b.0 - a.0), a.1 + (b.1 - a.1)));
            lemma_step_is_exit(m, a.0, a.1, b.0 - a.0, b.1 - a.1);
        }
    }
}

/// Whether each step of `s` stays put or follows an exit of its tile.
pub open spec fn follows_exits(m: &GameMap, s: Seq<(int, int)>) -> bool {
    forall|i: int| 0 <= i < s.len() - 1 ==> #[trigger] s[i + 1] == s[i] || exit_edge(m, s[i], s[i + 1])
}

/// On a generated level `g` whose blocked flags are then set to exactly its
/// walls (`m`, as `populate_blocked` leaves it), every open tile can be reached from the
/// centre of the first room through the exits that path search uses.
pub proof fn lemma_generated_level_paths(g: &GameMap, m: &GameMap, depth: i32)
    requires
        generated_map(g, depth),
        *m == (GameMap { blocked: m.blocked, ..*g }),
        m.blocked@.len() == MAPSIZE_COUNT,
        forall|t: int| 0 <= t < MAPSIZE_COUNT ==> #[trigger] m.blocked@[t] == m.is_wall(t),
    ensures
        forall|x: int, y: int| #[trigger] open_at(m.tiles@, x, y) ==> exists|s: Seq<(int, int)>|
            is_walk(m.tiles@, s) && s[0] == center_pt(m.rooms@[0]) && s.last() == (x, y) && follows_exits(m, s),
{
    assert forall|x: int, y: int| #[trigger] open_at(m.tiles@, x, y) implies exists|s: Seq<(int, int)>|
        is_walk(m.tiles@, s) && s[0] == center_pt(m.rooms@[0]) && s.last() == (x, y) && follows_exits(m, s) by {
        assert(connected(g.tiles@, center_pt(g.rooms@[0]), (x, y)));
        let s = choose|s: Seq<(int, int)>| is_walk(m.tiles@, s) && s[0] == center_pt(m.rooms@[0]) && s.last() == (x, y);
        lemma_walk_uses_exits(g, m, depth, s);
    }
}

} // verus!
