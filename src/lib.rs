pub mod geom;
pub mod rng;
pub mod component;
pub mod map;
pub mod gamelog;
pub mod world;
pub mod damage;
pub mod melee_combat;
pub mod map_indexing;
pub mod visibility;
pub mod inventory;
pub mod state;
pub mod monster_ai;
pub mod turn_healing;
pub mod player;
pub mod spawner;
pub mod game;
pub mod saveload;
pub mod map_paths;
