use vstd::prelude::*;
use crate::damage::EntityDamageCause;
use crate::event::{EventIcon, EventType};
use crate::heal::HealCause;
use crate::item::Item;
use crate::player::PlayerStatistics;
use crate::settings::Settings;
use crate::team::TeamColor;

verus! {

/// A player as the raw report lists it: identifier, display name,
/// optional tag lines and optional raw statistics.
#[derive(Debug, Clone)]
pub struct Player {
    pub uuid: u128,
    pub name: String,
    pub tag_line: Option<String>,
    pub tag_line_secondary: Option<String>,
    pub tag_line_details: Option<String>,
    pub statistics: Option<PlayerStatistics>,
}

/// A team as the raw report lists it: members are identifiers, to be
/// resolved against the catalog.
#[derive(Debug, Clone)]
pub struct Team {
    pub name: String,
    pub color: TeamColor,
    pub players: Vec<u128>,
}

/// A damage event as the raw report lists it; `damagee` (and the player of
/// a player cause) are identifiers, to be resolved against the catalog.
#[derive(Debug, Clone)]
pub struct Damage {
    /// Absolute timestamp of the hit, in milliseconds.
    pub date: i64,
    pub cause: DamageCause,
    pub damager: Option<u128>,
    pub damagee: u128,
    pub damage: u16,
    pub lethal: bool,
}

/// A raw damage cause; the player of a player cause is an identifier.
#[derive(Debug, Clone)]
pub enum DamageCause {
    Player(PlayerDamageCause),
    Entity(EntityDamageCause),
    BlockExplosion,
    Contact,
    Cramming,
    DragonBreath,
    Drowning,
    Dryout,
    Fall,
    FallingBlock,
    Fire,
    FireTick,
    FlyIntoWall,
    HotFloor,
    Lava,
    Lightning,
    Magic,
    Melting,
    Poison,
    Projectile,
    Starvation,
    Suffocation,
    Suicide,
    Thorns,
    Void,
    Wither,
    Command,
    Unknown,
}

#[derive(Debug, Clone)]
pub struct PlayerDamageCause {
    pub player: u128,
    pub weapon: Option<Item>,
}

/// A heal event as the raw report lists it; `healed` is an identifier.
#[derive(Debug, Clone)]
pub struct Heal {
    /// Absolute timestamp of the heal, in milliseconds.
    pub date: i64,
    pub cause: HealCause,
    pub healed: u128,
    pub heal: u16,
}

/// A timeline event as the raw report lists it.
#[derive(Debug, Clone)]
pub struct Event {
    /// Absolute timestamp of the event, in milliseconds.
    pub date: i64,
    pub event_type: EventType,
    pub title: String,
    pub description: Option<String>,
    pub icon: EventIcon,
}

/// The raw match report handed to the pipeline, with every player
/// reference still an opaque identifier.
#[derive(Debug, Clone)]
pub struct Report {
    pub match_uuid: u128,
    pub title: String,
    /// Absolute timestamp of the match start, in milliseconds.
    pub date: i64,
    pub minecraft: Option<String>,
    pub settings: Settings,
    pub players: Vec<Player>,
    pub teams: Vec<Team>,
    pub winners: Option<Vec<u128>>,
    pub damages: Vec<Damage>,
    pub heals: Vec<Heal>,
    pub events: Vec<Event>,
}

} // verus!
