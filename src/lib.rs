//! Dimension-generic vector and matrix kernel of a small raycasting engine,
//! together with the engine's frame clock, event system and entities.

pub mod clock;
pub mod entity;
pub mod events;
pub mod matrix;
pub mod vector;

pub use clock::{ActiveClock, Clock};
pub use entity::Entity;
pub use events::{EventSystemT, EventT};
pub use matrix::Matrix;
pub use vector::Vector;
