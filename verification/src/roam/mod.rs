pub mod database;
pub mod models;

pub use models::{DatabaseStats, OrgRoamFile, OrgRoamLink, OrgRoamNode};
