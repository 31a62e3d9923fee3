//! The player's settings.
use vstd::prelude::*;

verus! {

pub struct Config {
    pub player_name: String,
    /// The starting time of each player, in minutes.
    pub time_minutes: u64,
    /// The level of the computer player; none for a game between two people.
    pub ai_level: Option<u8>,
    pub port: u16,
    pub theme: String,
}

impl Default for Config {
    fn default() -> (c: Config)
        ensures
            c.player_name@ == "Player"@,
            c.time_minutes == 10,
            c.ai_level == Some(1u8),
            c.port == 23456,
            c.theme@ == "tokio_night"@,
    {
        Config {
            player_name: String::from_str("Player"),
            time_minutes: 10,
            ai_level: Some(1),
            port: 23456,
            theme: String::from_str("tokio_night"),
        }
    }
}

} // verus!
