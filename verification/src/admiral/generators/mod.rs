//! Generators of whole structures of entities.

pub mod rail90;
pub mod beacon_farm;
pub mod rail_station;
pub mod terapower;
