use vstd::prelude::*;

use crate::map::MapSettings;

verus! {

/// What a new game is made from: how many humans and bots play, and the map.
#[derive(Clone, Copy, Debug)]
pub struct GameSettings {
    pub nb_humans: u32,
    pub nb_bots: u32,
    pub map_settings: MapSettings,
}

impl GameSettings {
    /// The settings of the single-player campaign: one human, no bot, the
    /// default map.
    pub fn default() -> (r: GameSettings)
        ensures
            r.nb_humans == 1,
            r.nb_bots == 0,
            r.map_settings == (MapSettings {
                width: 15,
                height: 15,
                cheesiness: 5,
                spawns: 4,
                spawn_size: 1,
                safe_range: 3,
                map_type: crate::map::MapType::Corners,
                walls: true,
                attempts: 100,
            }),
    {
        GameSettings { nb_humans: 1, nb_bots: 0, map_settings: MapSettings::default() }
    }
}

} // verus!
