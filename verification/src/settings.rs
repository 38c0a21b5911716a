use vstd::prelude::*;

verus! {

/// Presentation settings echoed into the processed report. A missing
/// settings object in the raw document means the documented default:
/// every section enabled except the "used" statistics, and no whitelist
/// or highlight restriction anywhere.
#[derive(Debug, Clone)]
pub struct Settings {
    pub date: bool,
    pub players_count: bool,
    pub winners: bool,
    pub summary: SettingsSummary,
    pub damages: SettingsDamages,
    pub players: SettingsPlayers,
    pub generator: Option<SettingsGenerator>,
}

#[derive(Debug, Clone)]
pub struct SettingsSummary {
    pub enabled: bool,
    pub history: bool,
    pub players: bool,
    pub teams: bool,
}

#[derive(Debug, Clone)]
pub struct SettingsDamages {
    pub enabled: bool,
    pub damages_per_players: bool,
    pub damages_per_team: bool,
    pub damages_from_mobs: bool,
}

/// Visibility rules for the four statistic groups: a group is shaped for
/// display only when its flag is on; its whitelist filters the keys kept
/// (empty whitelist = keep all) and its highlight list splits the kept keys
/// into visible and hidden (empty highlight = all visible).
#[derive(Debug, Clone)]
pub struct SettingsPlayers {
    pub enabled: bool,
    pub play_time: bool,
    pub statistics_whitelist: Vec<String>,
    pub statistics_highlight: Vec<String>,
    pub used: bool,
    pub used_whitelist: Vec<String>,
    pub used_highlight: Vec<String>,
    pub mined: bool,
    pub mined_whitelist: Vec<String>,
    pub mined_highlight: Vec<String>,
    pub picked_up: bool,
    pub picked_up_whitelist: Vec<String>,
    pub picked_up_highlight: Vec<String>,
}

#[derive(Debug, Clone)]
pub struct SettingsGenerator {
    pub name: String,
    pub link: Option<String>,
}

pub open spec fn is_default_summary_settings(s: SettingsSummary) -> bool {
    s.enabled && s.history && s.players && s.teams
}

pub open spec fn is_default_damages_settings(s: SettingsDamages) -> bool {
    s.enabled && s.damages_per_players && s.damages_per_team && s.damages_from_mobs
}

pub open spec fn is_default_players_settings(s: SettingsPlayers) -> bool {
    &&& s.enabled
    &&& s.play_time
    &&& s.statistics_whitelist@ =~= Seq::<String>::empty()
    &&& s.statistics_highlight@ =~= Seq::<String>::empty()
    &&& !s.used
    &&& s.used_whitelist@ =~= Seq::<String>::empty()
    &&& s.used_highlight@ =~= Seq::<String>::empty()
    &&& s.mined
    &&& s.mined_whitelist@ =~= Seq::<String>::empty()
    &&& s.mined_highlight@ =~= Seq::<String>::empty()
    &&& s.picked_up
    &&& s.picked_up_whitelist@ =~= Seq::<String>::empty()
    &&& s.picked_up_highlight@ =~= Seq::<String>::empty()
}

pub open spec fn is_default_settings(s: Settings) -> bool {
    &&& s.date
    &&& s.players_count
    &&& s.winners
    &&& is_default_summary_settings(s.summary)
    &&& is_default_damages_settings(s.damages)
    &&& is_default_players_settings(s.players)
    &&& s.generator is None
}

pub fn default_summary_settings() -> (s: SettingsSummary)
    ensures
        is_default_summary_settings(s),
{
    SettingsSummary { enabled: true, history: true, players: true, teams: true }
}

pub fn default_damages_settings() -> (s: SettingsDamages)
    ensures
        is_default_damages_settings(s),
{
    SettingsDamages {
        enabled: true,
        damages_per_players: true,
        damages_per_team: true,
        damages_from_mobs: true,
    }
}

pub fn default_players_settings() -> (s: SettingsPlayers)
    ensures
        is_default_players_settings(s),
{
    SettingsPlayers {
        enabled: true,
        play_time: true,
        statistics_whitelist: Vec::new(),
        statistics_highlight: Vec::new(),
        used: false,
        used_whitelist: Vec::new(),
        used_highlight: Vec::new(),
        mined: true,
        mined_whitelist: Vec::new(),
        mined_highlight: Vec::new(),
        picked_up: true,
        picked_up_whitelist: Vec::new(),
        picked_up_highlight: Vec::new(),
    }
}

/// The documented default when the raw report carries no settings object.
pub fn default_settings() -> (s: Settings)
    ensures
        is_default_settings(s),
{
    Settings {
        date: true,
        players_count: true,
        winners: true,
        summary: default_summary_settings(),
        damages: default_damages_settings(),
        players: default_players_settings(),
        generator: None,
    }
}

} // verus!
