//! Survicraft's game rules on integers and identifiers: the square tile map and its chunks,
//! tile and feature look-ups, crafting, and the progress and status read-outs.

pub mod grid;
pub mod hash_maps;
pub mod tilemap;
pub mod lookup;
pub mod inventory;
pub mod features;
pub mod terrain;
pub mod status;
pub mod launcher;
pub mod settings;
