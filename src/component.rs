use vstd::prelude::*;
use crate::geom::Point;

verus! {

/// A handle into the world's entity arena. Deleted slots are not handed
/// out again, so a handle to a deleted entity is recognised as dead rather
/// than aliasing a newer one, until a saved game is loaded over the world.
#[derive(Clone, Copy, Debug, PartialEq, Eq, Structural)]
pub struct Entity {
    pub id: usize,
}

/// Picture used to draw an entity or a tile.
#[derive(Clone, Copy, Debug, PartialEq, Eq, Structural)]
pub enum GameImage {
    Player,
    Dragon,
    Kobold,
    Potion,
    Scroll,
    Wall,
    Floor,
    DownStairs,
    Sword,
    Shield,
}

#[derive(Clone, Copy, Debug, PartialEq, Eq, Structural)]
pub struct Renderable {
    pub image: GameImage,
    pub render_layer: i32,
}

#[derive(Clone, Copy, Debug, PartialEq, Eq, Structural)]
pub struct Position {
    pub x: i32,
    pub y: i32,
}

/// Width, in tiles, of the view around the player.
pub const PLAYER_WINDOW_WIDTH: i32 = 29;
/// Height, in tiles, of the view around the player.
pub const PLAYER_WINDOW_HEIGHT: i32 = 19;

/// The column just left of the view centred on `p`.
pub fn point_to_left(p: Point) -> (r: i32)
    requires
        p.x >= i32::MIN + PLAYER_WINDOW_WIDTH / 2,
    ensures
        r == p.x - PLAYER_WINDOW_WIDTH / 2,
{
    -(PLAYER_WINDOW_WIDTH / 2) + p.x
}

/// The row just above the view centred on `p`.
pub fn point_to_top(p: Point) -> (r: i32)
    requires
        p.y >= i32::MIN + PLAYER_WINDOW_HEIGHT / 2,
    ensures
        r == p.y - PLAYER_WINDOW_HEIGHT / 2,
{
    -(PLAYER_WINDOW_HEIGHT / 2) + p.y
}

impl Position {
    /// The row just above the view centred here.
    pub fn to_top(&self) -> (r: i32)
        requires
            self.y >= i32::MIN + PLAYER_WINDOW_HEIGHT / 2,
        ensures
            r == self.y - PLAYER_WINDOW_HEIGHT / 2,
    {
        -(PLAYER_WINDOW_HEIGHT / 2) + self.y
    }

    /// The column just left of the view centred here.
    pub fn to_left(&self) -> (r: i32)
        requires
            self.x >= i32::MIN + PLAYER_WINDOW_WIDTH / 2,
        ensures
            r == self.x - PLAYER_WINDOW_WIDTH / 2,
    {
        -(PLAYER_WINDOW_WIDTH / 2) + self.x
    }

    /// The column just right of the view centred here.
    pub fn to_right(&self) -> (r: i32)
        requires
            self.x <= i32::MAX - PLAYER_WINDOW_WIDTH / 2 - 1,
        ensures
            r == self.x + PLAYER_WINDOW_WIDTH / 2 + 1,
    {
        PLAYER_WINDOW_WIDTH / 2 + 1 + self.x
    }

    /// The row just below the view centred here.
    pub fn to_buttom(&self) -> (r: i32)
        requires
            self.y <= i32::MAX - PLAYER_WINDOW_HEIGHT / 2 - 1,
        ensures
            r == self.y + PLAYER_WINDOW_HEIGHT / 2 + 1,
    {
        PLAYER_WINDOW_HEIGHT / 2 + 1 + self.y
    }

    pub fn to_point(&self) -> (r: Point)
        ensures
            r.x == self.x,
            r.y == self.y,
    {
        Point { x: self.x, y: self.y }
    }
}

#[derive(Clone, Debug)]
pub struct Viewshed {
    pub visible_tiles: Vec<Point>,
    pub range: i32,
    pub dirty: bool,
}

#[derive(Clone, Copy, Debug, PartialEq, Eq, Structural)]
pub struct Monster {}

#[derive(Clone, Copy, Debug, PartialEq, Eq, Structural)]
pub struct Player {}

/// A monster's memory of the last tile it saw the player on.
#[derive(Clone, Copy, Debug, PartialEq, Eq, Structural)]
pub struct SeenPlayer {
    pub point: Option<Point>,
}

#[derive(Clone, Debug)]
pub struct Name {
    pub name: String,
}

#[derive(Clone, Copy, Debug, PartialEq, Eq, Structural)]
pub struct BlocksTile {}

#[derive(Clone, Copy, Debug, PartialEq, Eq, Structural)]
pub struct CombatStats {
    pub max_hp: i32,
    pub hp: i32,
    pub defense: i32,
    pub power: i32,
}

#[derive(Clone, Copy, Debug, PartialEq, Eq, Structural)]
pub struct DurationTurnHeal {
    pub time: i32,
}

#[derive(Clone, Copy, Debug, PartialEq, Eq, Structural)]
pub struct WantsToMelee {
    pub target: Entity,
}

#[derive(Clone, Copy, Debug, PartialEq, Eq, Structural)]
pub struct Item {}

#[derive(Clone, Copy, Debug, PartialEq, Eq, Structural)]
pub struct Consumable {}

#[derive(Clone, Copy, Debug, PartialEq, Eq, Structural)]
pub struct Potion {
    pub heal_amount: i32,
}

#[derive(Clone, Copy, Debug, PartialEq, Eq, Structural)]
pub struct InBackpack {
    pub owner: Entity,
}

#[derive(Clone, Copy, Debug, PartialEq, Eq, Structural)]
pub struct WantsToPickupItem {
    pub collected_by: Entity,
    pub item: Entity,
}

/// Damage queued against an entity during one turn, in arrival order.
#[derive(Clone, Debug)]
pub struct SufferDamage {
    pub amount: Vec<i32>,
}

#[derive(Clone, Copy, Debug, PartialEq, Eq, Structural)]
pub struct WantsToUseItem {
    pub item: Entity,
    pub target: Option<Point>,
}

#[derive(Clone, Copy, Debug, PartialEq, Eq, Structural)]
pub struct DropItem {
    pub item: Entity,
}

#[derive(Clone, Copy, Debug, PartialEq, Eq, Structural)]
pub struct ProvidesHealing {
    pub heal_amount: i32,
}

#[derive(Clone, Copy, Debug, PartialEq, Eq, Structural)]
pub struct Ranged {
    pub range: i32,
}

#[derive(Clone, Copy, Debug, PartialEq, Eq, Structural)]
pub struct InflictsDamage {
    pub damage: i32,
}

#[derive(Clone, Copy, Debug, PartialEq, Eq, Structural)]
pub struct AreaOfEffect {
    pub radius: i32,
}

/// On an item: the number of turns it paralyses its targets for.
/// On a creature: the turns of paralysis left.
#[derive(Clone, Copy, Debug, PartialEq, Eq, Structural)]
pub struct Paralyze {
    pub turns: i32,
}

#[derive(Clone, Copy, Debug, PartialEq, Eq, Structural)]
pub enum EquipmentSlot {
    Melee,
    Shield,
}

#[derive(Clone, Copy, Debug, PartialEq, Eq, Structural)]
pub struct Equippable {
    pub slot: EquipmentSlot,
}

#[derive(Clone, Copy, Debug, PartialEq, Eq, Structural)]
pub struct Equipped {
    pub owner: Entity,
    pub slot: EquipmentSlot,
}

} // verus!
