//! Pieces shared by the tools of the project.

pub mod logger;
