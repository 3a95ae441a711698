//! A turn-based grid-world simulation engine: a fixed map of tiles with
//! field-of-view and fog-of-war, a roster of characters driven by pluggable
//! controllers, deterministic turn resolution with melee combat, and an
//! inventory-transfer protocol.

pub mod gamestate;
pub mod grid;
pub mod item;
pub mod map;
pub mod message;
pub mod object;
pub mod pos;
pub mod rng;
pub mod text;
pub mod tile;

pub use gamestate::GameState;
pub use item::Inventory;
pub use item::Item;
pub use item::ItemEffect;
pub use item::WearLoc;
pub use map::GameMap;
pub use message::Message;
pub use object::Action;
pub use object::Character;
pub use object::Controller;
pub use object::Faction;
pub use object::StatBlock;
pub use pos::Dir;
pub use pos::Pos;
pub use tile::Color;
pub use tile::Tile;
