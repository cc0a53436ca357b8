pub mod events;
pub mod render;
