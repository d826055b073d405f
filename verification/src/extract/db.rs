use vstd::prelude::*;

verus! {

/// How much of a star system the player has surveyed.
#[derive(Debug, Clone)]
pub struct SystemDiscovery {
    pub system_name: String,
    pub planet_count: u32,
    pub surveyed_full: u32,
    pub surveyed_any: u32,
    pub is_core: bool,
    pub npc_colonized_planets: u32,
}

/// A save that has been extracted into the database.
#[derive(Debug, Clone)]
pub struct SaveRow {
    pub id: i64,
    pub dir_name: String,
    pub path: String,
    pub character_name: String,
    pub save_date: String,
    pub game_version: String,
    pub character_level: u32,
    pub extracted_at: String,
}

} // verus!
