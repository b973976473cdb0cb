//! Passes over the surface that gather patches and rails into groups.

pub mod patch_grouper;
pub mod hakka;
