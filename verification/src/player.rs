use vstd::prelude::*;
use crate::order::{seq_sorted, sort_total, TotalOrdered};
use crate::settings::SettingsPlayers;
use crate::team::TeamColor;
use crate::text::{
    chars_eq_str, lex_le, lemma_lex_le_total, lemma_lex_le_trans, lower_chars, lower_vec,
    remove_pat, remove_pattern, str_eq, str_lex_le, str_to_chars,
};

verus! {

/// One raw statistic: a key and how often the game counted it.
#[derive(Debug, Clone)]
pub struct StatisticEntry {
    pub key: String,
    pub value: u32,
}

/// The raw statistics bundle of a player, one optional group each for the
/// generic counters and for the used / mined / picked-up item counters.
/// Each group is a key-to-count association, expected to hold each key
/// once, as a group built from a JSON object does; should a key repeat,
/// aggregation sums its counts and display shaping classifies each
/// occurrence.
#[derive(Debug, Clone)]
pub struct PlayerStatistics {
    pub generic: Option<Vec<StatisticEntry>>,
    pub used: Option<Vec<StatisticEntry>>,
    pub mined: Option<Vec<StatisticEntry>>,
    pub picked_up: Option<Vec<StatisticEntry>>,
}

/// The unit a distance statistic is scaled to: meters below a kilometer,
/// kilometers from there on.
#[derive(Debug, Clone, Copy, PartialEq, Eq, Structural)]
pub enum DistanceUnit {
    Meters,
    Kilometers,
}

/// A raw `(key, count)` pair classified for display. Derived values are
/// carried as exact integers: `seconds` is the count divided by 20 (the
/// game ticks 20 times a second), `hearts_milli` is thousandths of a heart
/// (the count is stored in twentieths of a heart), and `distance_milli` is
/// thousandths of the tagged unit, rounded down.
#[derive(Debug, Clone)]
pub enum Statistic {
    Duration { id: String, raw: u32, seconds: u64 },
    Distance { id: String, raw: u32, distance_milli: u64, unit: DistanceUnit },
    Hearts { id: String, raw: u32, hearts_milli: u64 },
    Times { id: String, raw: u32 },
    Number { id: String, raw: u32 },
}

/// One statistic group shaped for display: the keys kept by the whitelist,
/// split into the visible ones and the ones hidden behind a disclosure,
/// each side sorted by the display policy.
#[derive(Debug, Clone)]
pub struct DisplayedStatistics {
    pub visible: Vec<Statistic>,
    pub hidden: Vec<Statistic>,
}

/// The display shaping of a whole statistics bundle; a group disabled in
/// the settings (or absent from the raw bundle) stays `None`.
#[derive(Debug, Clone)]
pub struct DisplayedPlayerStatistics {
    pub generic: Option<DisplayedStatistics>,
    pub used: Option<DisplayedStatistics>,
    pub mined: Option<DisplayedStatistics>,
    pub picked_up: Option<DisplayedStatistics>,
}

/// A canonical player of the catalog. Built once from the raw player and
/// team lists, immutable afterwards; every other structure references it
/// through the lightweight [`SimplePlayer`] projection.
#[derive(Debug, Clone)]
pub struct Player {
    pub uuid: u128,
    pub name: String,
    pub color: TeamColor,
    pub team: Option<String>,
    pub tag_line: String,
    pub tag_line_secondary: String,
    pub tag_line_details: String,
    pub statistics: Option<PlayerStatistics>,
    pub displayed_statistics: Option<DisplayedPlayerStatistics>,
}

/// The lightweight projection of a catalog player that is embedded
/// wherever the processed report references a player.
#[derive(Debug, Clone)]
pub struct SimplePlayer {
    pub uuid: u128,
    pub name: String,
    pub color: TeamColor,
    pub team: Option<String>,
}

impl Player {
    /// The projection of this player, as a spec-level value.
    pub open spec fn simple_spec(&self) -> SimplePlayer {
        SimplePlayer { uuid: self.uuid, name: self.name, color: self.color, team: self.team }
    }

    /// The projection of this player embedded in events and aggregates.
    pub fn simple(&self) -> (r: SimplePlayer)
        ensures
            r == self.simple_spec(),
    {
        let team = match &self.team {
            Option::Some(t) => Option::Some(t.clone()),
            Option::None => Option::None,
        };
        SimplePlayer { uuid: self.uuid, name: self.name.clone(), color: self.color, team }
    }
}

/// Catalog players are listed by display name.
impl TotalOrdered for Player {
    open spec fn le_spec(&self, other: &Self) -> bool {
        lex_le(self.name@, other.name@)
    }

    proof fn lemma_total(a: &Self, b: &Self) {
        lemma_lex_le_total(a.name@, b.name@);
    }

    proof fn lemma_trans(a: &Self, b: &Self, c: &Self) {
        lemma_lex_le_trans(a.name@, b.name@, c.name@);
    }

    fn le(&self, other: &Self) -> (r: bool) {
        str_lex_le(self.name.as_str(), other.name.as_str())
    }
}

/// Winner lists are sorted by display name.
impl TotalOrdered for SimplePlayer {
    open spec fn le_spec(&self, other: &Self) -> bool {
        lex_le(self.name@, other.name@)
    }

    proof fn lemma_total(a: &Self, b: &Self) {
        lemma_lex_le_total(a.name@, b.name@);
    }

    proof fn lemma_trans(a: &Self, b: &Self, c: &Self) {
        lemma_lex_le_trans(a.name@, b.name@, c.name@);
    }

    fn le(&self, other: &Self) -> (r: bool) {
        str_lex_le(self.name.as_str(), other.name.as_str())
    }
}

/// The canonical form a statistic key is matched under: every occurrence
/// of the custom-statistic namespace prefix removed, then ASCII-lowercased.
pub open spec fn canon_key(k: Seq<char>) -> Seq<char> {
    lower_chars(remove_pat(k, "minecraft.custom:"@))
}

pub open spec fn is_duration_key(c: Seq<char>) -> bool {
    ||| c == "minecraft.play_one_minute"@
    ||| c == "minecraft.time_since_death"@
    ||| c == "minecraft.sneak_time"@
    ||| c == "minecraft.time_since_rest"@
}

pub open spec fn is_distance_key(c: Seq<char>) -> bool {
    ||| c == "minecraft.walk_one_cm"@
    ||| c == "minecraft.crouch_one_cm"@
    ||| c == "minecraft.sprint_one_cm"@
    ||| c == "minecraft.swim_one_cm"@
    ||| c == "minecraft.fall_one_cm"@
    ||| c == "minecraft.climb_one_cm"@
    ||| c == "minecraft.fly_one_cm"@
    ||| c == "minecraft.walk_under_water_one_cm"@
    ||| c == "minecraft.dive_one_cm"@
    ||| c == "minecraft.minecart_one_cm"@
    ||| c == "minecraft.boat_one_cm"@
    ||| c == "minecraft.pig_one_cm"@
    ||| c == "minecraft.horse_one_cm"@
    ||| c == "minecraft.aviate_one_cm"@
    ||| c == "minecraft.walk_on_water_one_cm"@
}

pub open spec fn is_hearts_key(c: Seq<char>) -> bool {
    ||| c == "minecraft.damage_dealt"@
    ||| c == "minecraft.damage_dealt_absorbed"@
    ||| c == "minecraft.damage_dealt_resisted"@
    ||| c == "minecraft.damage_taken"@
    ||| c == "minecraft.damage_absorbed"@
    ||| c == "minecraft.damage_resisted"@
    ||| c == "minecraft.damage_blocked_by_shield"@
}

pub open spec fn is_times_key(c: Seq<char>) -> bool {
    ||| c == "minecraft.interact_with_brewingstand"@
    ||| c == "minecraft.interact_with_beacon"@
    ||| c == "minecraft.interact_with_crafting_table"@
    ||| c == "minecraft.interact_with_furnace"@
    ||| c == "minecraft.interact_with_blast_furnace"@
    ||| c == "minecraft.interact_with_campfire"@
    ||| c == "minecraft.interact_with_cartography_table"@
    ||| c == "minecraft.interact_with_lectern"@
    ||| c == "minecraft.interact_with_loom"@
    ||| c == "minecraft.interact_with_smoker"@
    ||| c == "minecraft.interact_with_stonecutter"@
    ||| c == "minecraft.inspect_dispenser"@
    ||| c == "minecraft.inspect_dropper"@
    ||| c == "minecraft.inspect_hopper"@
    ||| c == "minecraft.open_chest"@
    ||| c == "minecraft.trigger_trapped_chest"@
    ||| c == "minecraft.open_enderchest"@
    ||| c == "minecraft.play_noteblock"@
    ||| c == "minecraft.tune_noteblock"@
    ||| c == "minecraft.eat"@
    ||| c == "minecraft.talked_to_villager"@
    ||| c == "minecraft.traded_with_villager"@
}

/// The typed classification of one raw `(key, count)` pair: the key is
/// matched in canonical form against the fixed category tables; the
/// human-scaled value is derived from the count as the [`Statistic`]
/// documentation says; a distance of at least a thousand meters
/// (count at least 100000, counts are centimeters) switches to kilometers.
pub open spec fn classify(id: String, raw: u32) -> Statistic {
    let c = canon_key(id@);
    if is_duration_key(c) {
        Statistic::Duration { id, raw, seconds: (raw / 20) as u64 }
    } else if is_distance_key(c) {
        if raw < 100000 {
            Statistic::Distance {
                id,
                raw,
                distance_milli: ((raw * 10) as u64),
                unit: DistanceUnit::Meters,
            }
        } else {
            Statistic::Distance {
                id,
                raw,
                distance_milli: ((raw / 100) as u64),
                unit: DistanceUnit::Kilometers,
            }
        }
    } else if is_hearts_key(c) {
        Statistic::Hearts { id, raw, hearts_milli: ((raw * 50) as u64) }
    } else if is_times_key(c) {
        Statistic::Times { id, raw }
    } else {
        Statistic::Number { id, raw }
    }
}

fn is_duration(c: &Vec<char>) -> (r: bool)
    ensures
        r == is_duration_key(c@),
{
    chars_eq_str(c, "minecraft.play_one_minute") || chars_eq_str(c, "minecraft.time_since_death")
        || chars_eq_str(c, "minecraft.sneak_time") || chars_eq_str(c, "minecraft.time_since_rest")
}

fn is_distance(c: &Vec<char>) -> (r: bool)
    ensures
        r == is_distance_key(c@),
{
    chars_eq_str(c, "minecraft.walk_one_cm") || chars_eq_str(c, "minecraft.crouch_one_cm")
        || chars_eq_str(c, "minecraft.sprint_one_cm") || chars_eq_str(c, "minecraft.swim_one_cm")
        || chars_eq_str(c, "minecraft.fall_one_cm") || chars_eq_str(c, "minecraft.climb_one_cm")
        || chars_eq_str(c, "minecraft.fly_one_cm") || chars_eq_str(
        c,
        "minecraft.walk_under_water_one_cm",
    ) || chars_eq_str(c, "minecraft.dive_one_cm") || chars_eq_str(c, "minecraft.minecart_one_cm")
        || chars_eq_str(c, "minecraft.boat_one_cm") || chars_eq_str(c, "minecraft.pig_one_cm")
        || chars_eq_str(c, "minecraft.horse_one_cm") || chars_eq_str(c, "minecraft.aviate_one_cm")
        || chars_eq_str(c, "minecraft.walk_on_water_one_cm")
}

fn is_hearts(c: &Vec<char>) -> (r: bool)
    ensures
        r == is_hearts_key(c@),
{
    chars_eq_str(c, "minecraft.damage_dealt") || chars_eq_str(c, "minecraft.damage_dealt_absorbed")
        || chars_eq_str(c, "minecraft.damage_dealt_resisted") || chars_eq_str(
        c,
        "minecraft.damage_taken",
    ) || chars_eq_str(c, "minecraft.damage_absorbed") || chars_eq_str(
        c,
        "minecraft.damage_resisted",
    ) || chars_eq_str(c, "minecraft.damage_blocked_by_shield")
}

fn is_times(c: &Vec<char>) -> (r: bool)
    ensures
        r == is_times_key(c@),
{
    chars_eq_str(c, "minecraft.interact_with_brewingstand") || chars_eq_str(
        c,
        "minecraft.interact_with_beacon",
    ) || chars_eq_str(c, "minecraft.interact_with_crafting_table") || chars_eq_str(
        c,
        "minecraft.interact_with_furnace",
    ) || chars_eq_str(c, "minecraft.interact_with_blast_furnace") || chars_eq_str(
        c,
        "minecraft.interact_with_campfire",
    ) || chars_eq_str(c, "minecraft.interact_with_cartography_table") || chars_eq_str(
        c,
        "minecraft.interact_with_lectern",
    ) || chars_eq_str(c, "minecraft.interact_with_loom") || chars_eq_str(
        c,
        "minecraft.interact_with_smoker",
    ) || chars_eq_str(c, "minecraft.interact_with_stonecutter") || chars_eq_str(
        c,
        "minecraft.inspect_dispenser",
    ) || chars_eq_str(c, "minecraft.inspect_dropper") || chars_eq_str(
        c,
        "minecraft.inspect_hopper",
    ) || chars_eq_str(c, "minecraft.open_chest") || chars_eq_str(
        c,
        "minecraft.trigger_trapped_chest",
    ) || chars_eq_str(c, "minecraft.open_enderchest") || chars_eq_str(
        c,
        "minecraft.play_noteblock",
    ) || chars_eq_str(c, "minecraft.tune_noteblock") || chars_eq_str(c, "minecraft.eat")
        || chars_eq_str(c, "minecraft.talked_to_villager") || chars_eq_str(
        c,
        "minecraft.traded_with_villager",
    )
}

/// Classifies one raw `(key, count)` pair into its typed display value.
pub fn classify_statistic(id: String, raw: u32) -> (s: Statistic)
    ensures
        s == classify(id, raw),
{
    proof {
        reveal_strlit("minecraft.custom:");
    }
    let chars = str_to_chars(id.as_str());
    let removed = remove_pattern(&chars, "minecraft.custom:");
    let c = lower_vec(&removed);
    if is_duration(&c) {
        Statistic::Duration { id, raw, seconds: (raw / 20) as u64 }
    } else if is_distance(&c) {
        if raw < 100000 {
            Statistic::Distance {
                id,
                raw,
                distance_milli: (raw as u64) * 10,
                unit: DistanceUnit::Meters,
            }
        } else {
            Statistic::Distance {
                id,
                raw,
                distance_milli: (raw as u64) / 100,
                unit: DistanceUnit::Kilometers,
            }
        }
    } else if is_hearts(&c) {
        Statistic::Hearts { id, raw, hearts_milli: (raw as u64) * 50 }
    } else if is_times(&c) {
        Statistic::Times { id, raw }
    } else {
        Statistic::Number { id, raw }
    }
}

/// The classification of a raw statistic entry.
pub open spec fn classify_entry(e: StatisticEntry) -> Statistic {
    classify(e.key, e.value)
}

/// The classifications of a sequence of raw statistic entries.
pub open spec fn classified(entries: Seq<StatisticEntry>) -> Seq<Statistic> {
    entries.map_values(|e: StatisticEntry| classify_entry(e))
}

/// The position of a statistic kind in the fixed display order: durations,
/// then distances, hearts, interaction counts and plain numbers.
pub open spec fn kind_rank(s: Statistic) -> int {
    match s {
        Statistic::Duration { .. } => 0,
        Statistic::Distance { .. } => 1,
        Statistic::Hearts { .. } => 2,
        Statistic::Times { .. } => 3,
        Statistic::Number { .. } => 4,
    }
}

pub open spec fn stat_id(s: Statistic) -> Seq<char> {
    match s {
        Statistic::Duration { id, .. } => id@,
        Statistic::Distance { id, .. } => id@,
        Statistic::Hearts { id, .. } => id@,
        Statistic::Times { id, .. } => id@,
        Statistic::Number { id, .. } => id@,
    }
}

pub open spec fn stat_raw(s: Statistic) -> u32 {
    match s {
        Statistic::Duration { raw, .. } => raw,
        Statistic::Distance { raw, .. } => raw,
        Statistic::Hearts { raw, .. } => raw,
        Statistic::Times { raw, .. } => raw,
        Statistic::Number { raw, .. } => raw,
    }
}

impl Statistic {
    fn rank(&self) -> (r: u8)
        ensures
            r as int == kind_rank(*self),
    {
        match self {
            Statistic::Duration { .. } => 0,
            Statistic::Distance { .. } => 1,
            Statistic::Hearts { .. } => 2,
            Statistic::Times { .. } => 3,
            Statistic::Number { .. } => 4,
        }
    }

    fn id_str(&self) -> (r: &str)
        ensures
            r@ == stat_id(*self),
    {
        match self {
            Statistic::Duration { id, .. } => id.as_str(),
            Statistic::Distance { id, .. } => id.as_str(),
            Statistic::Hearts { id, .. } => id.as_str(),
            Statistic::Times { id, .. } => id.as_str(),
            Statistic::Number { id, .. } => id.as_str(),
        }
    }

    fn raw_value(&self) -> (r: u32)
        ensures
            r == stat_raw(*self),
    {
        match self {
            Statistic::Duration { raw, .. } => *raw,
            Statistic::Distance { raw, .. } => *raw,
            Statistic::Hearts { raw, .. } => *raw,
            Statistic::Times { raw, .. } => *raw,
            Statistic::Number { raw, .. } => *raw,
        }
    }
}

/// The display order of statistics: by kind first; durations and hearts
/// then sort ascending by key name, the numeric kinds sort descending by
/// raw count.
impl TotalOrdered for Statistic {
    open spec fn le_spec(&self, other: &Self) -> bool {
        if kind_rank(*self) != kind_rank(*other) {
            kind_rank(*self) < kind_rank(*other)
        } else if kind_rank(*self) == 0 || kind_rank(*self) == 2 {
            lex_le(stat_id(*self), stat_id(*other))
        } else {
            stat_raw(*other) <= stat_raw(*self)
        }
    }

    proof fn lemma_total(a: &Self, b: &Self) {
        if kind_rank(*a) == kind_rank(*b) && (kind_rank(*a) == 0 || kind_rank(*a) == 2) {
            lemma_lex_le_total(stat_id(*a), stat_id(*b));
        }
    }

    proof fn lemma_trans(a: &Self, b: &Self, c: &Self) {
        if kind_rank(*a) == kind_rank(*b) && kind_rank(*b) == kind_rank(*c) && (kind_rank(*a) == 0
            || kind_rank(*a) == 2) {
            lemma_lex_le_trans(stat_id(*a), stat_id(*b), stat_id(*c));
        }
    }

    fn le(&self, other: &Self) -> (r: bool) {
        let ra = self.rank();
        let rb = other.rank();
        if ra != rb {
            ra < rb
        } else if ra == 0 || ra == 2 {
            str_lex_le(self.id_str(), other.id_str())
        } else {
            other.raw_value() <= self.raw_value()
        }
    }
}

/// Whether a key list holds an entry with exactly these characters.
pub open spec fn contains_key(l: Seq<String>, k: Seq<char>) -> bool {
    exists|i: int| 0 <= i < l.len() && (#[trigger] l[i])@ == k
}

fn list_contains_key(l: &Vec<String>, k: &str) -> (r: bool)
    ensures
        r == contains_key(l@, k@),
{
    let mut i: usize = 0;
    while i < l.len()
        invariant
            i <= l@.len(),
            forall|j: int| 0 <= j < i ==> (#[trigger] l@[j])@ != k@,
        decreases l@.len() - i,
    {
        if str_eq(l[i].as_str(), k) {
            return true;
        }
        i = i + 1;
    }
    false
}

/// Whether an entry survives the whitelist filter: its key is whitelisted
/// (an empty whitelist keeps everything) and its count is not zero.
pub open spec fn entry_kept(e: StatisticEntry, whitelist: Seq<String>) -> bool {
    (whitelist.len() == 0 || contains_key(whitelist, e.key@)) && e.value != 0
}

/// Whether a kept entry is shown prominently: its key is highlighted (an
/// empty highlight list shows everything prominently).
pub open spec fn entry_highlighted(e: StatisticEntry, highlight: Seq<String>) -> bool {
    highlight.len() == 0 || contains_key(highlight, e.key@)
}

pub open spec fn visible_pred(whitelist: Seq<String>, highlight: Seq<String>) -> spec_fn(
    StatisticEntry,
) -> bool {
    |e: StatisticEntry| entry_kept(e, whitelist) && entry_highlighted(e, highlight)
}

pub open spec fn hidden_pred(whitelist: Seq<String>, highlight: Seq<String>) -> spec_fn(
    StatisticEntry,
) -> bool {
    |e: StatisticEntry| entry_kept(e, whitelist) && !entry_highlighted(e, highlight)
}

/// What the display shaping of one statistic group guarantees: each side
/// holds exactly the classifications of the entries the whitelist keeps
/// and the highlight list routes there, and each side is sorted by the
/// display policy.
pub open spec fn displayed_from(
    entries: Seq<StatisticEntry>,
    whitelist: Seq<String>,
    highlight: Seq<String>,
    d: DisplayedStatistics,
) -> bool {
    &&& seq_sorted(d.visible@)
    &&& seq_sorted(d.hidden@)
    &&& d.visible@.to_multiset() == classified(
        entries.filter(visible_pred(whitelist, highlight)),
    ).to_multiset()
    &&& d.hidden@.to_multiset() == classified(
        entries.filter(hidden_pred(whitelist, highlight)),
    ).to_multiset()
}

impl DisplayedStatistics {
    /// Shapes one raw statistic group for display: drops zero counts and
    /// keys outside the whitelist, routes each kept entry to the visible
    /// or the hidden side by the highlight list, classifies it, and sorts
    /// both sides by the display policy.
    pub fn calculate_displayed(
        statistics: &Vec<StatisticEntry>,
        whitelist: &Vec<String>,
        highlight: &Vec<String>,
    ) -> (d: DisplayedStatistics)
        ensures
            displayed_from(statistics@, whitelist@, highlight@, d),
    {
        let ghost vp = visible_pred(whitelist@, highlight@);
        let ghost hp = hidden_pred(whitelist@, highlight@);
        let mut visible: Vec<Statistic> = Vec::new();
        let mut hidden: Vec<Statistic> = Vec::new();
        let mut i: usize = 0;
        proof {
            assert(statistics@.take(0int) =~= Seq::<StatisticEntry>::empty());
            reveal(Seq::filter);
        }
        while i < statistics.len()
            invariant
                i <= statistics@.len(),
                vp == visible_pred(whitelist@, highlight@),
                hp == hidden_pred(whitelist@, highlight@),
                visible@ == classified(statistics@.take(i as int).filter(vp)),
                hidden@ == classified(statistics@.take(i as int).filter(hp)),
            decreases statistics@.len() - i,
        {
            let e = &statistics[i];
            let kept = (whitelist.len() == 0 || list_contains_key(whitelist, e.key.as_str()))
                && e.value != 0;
            proof {
                assert(kept == entry_kept(statistics@[i as int], whitelist@));
            }
            if kept {
                let highlighted = highlight.len() == 0 || list_contains_key(
                    highlight,
                    e.key.as_str(),
                );
                proof {
                    assert(highlighted == entry_highlighted(statistics@[i as int], highlight@));
                }
                let s = classify_statistic(e.key.clone(), e.value);
                if highlighted {
                    visible.push(s);
                } else {
                    hidden.push(s);
                }
            }
            proof {
                let pre = statistics@.take(i as int);
                let post = statistics@.take(i + 1);
                assert(post.drop_last() =~= pre);
                assert(post.last() == statistics@[i as int]);
                reveal(Seq::filter);
                assert(post.filter(vp) == if vp(statistics@[i as int]) {
                    pre.filter(vp).push(statistics@[i as int])
                } else {
                    pre.filter(vp)
                });
                assert(post.filter(hp) == if hp(statistics@[i as int]) {
                    pre.filter(hp).push(statistics@[i as int])
                } else {
                    pre.filter(hp)
                });
                if vp(statistics@[i as int]) {
                    assert(classified(post.filter(vp)) =~= classified(pre.filter(vp)).push(
                        classify_entry(statistics@[i as int]),
                    ));
                } else {
                    assert(classified(post.filter(vp)) =~= classified(pre.filter(vp)));
                }
                if hp(statistics@[i as int]) {
                    assert(classified(post.filter(hp)) =~= classified(pre.filter(hp)).push(
                        classify_entry(statistics@[i as int]),
                    ));
                } else {
                    assert(classified(post.filter(hp)) =~= classified(pre.filter(hp)));
                }
            }
            i = i + 1;
        }
        proof {
            assert(statistics@.take(statistics@.len() as int) =~= statistics@);
        }
        let visible = sort_total(visible);
        let hidden = sort_total(hidden);
        DisplayedStatistics { visible, hidden }
    }
}

/// What the display shaping of a whole bundle guarantees: every group that
/// is enabled in the settings and present in the raw bundle is shaped from
/// exactly that group with its own whitelist and highlight list; every
/// other group stays absent.
pub open spec fn displayed_bundle_ok(
    statistics: PlayerStatistics,
    settings: SettingsPlayers,
    d: DisplayedPlayerStatistics,
) -> bool {
    &&& match (settings.enabled, statistics.generic) {
        (true, Option::Some(g)) => d.generic is Some && displayed_from(
            g@,
            settings.statistics_whitelist@,
            settings.statistics_highlight@,
            d.generic.unwrap(),
        ),
        _ => d.generic is None,
    }
    &&& match (settings.used, statistics.used) {
        (true, Option::Some(g)) => d.used is Some && displayed_from(
            g@,
            settings.used_whitelist@,
            settings.used_highlight@,
            d.used.unwrap(),
        ),
        _ => d.used is None,
    }
    &&& match (settings.mined, statistics.mined) {
        (true, Option::Some(g)) => d.mined is Some && displayed_from(
            g@,
            settings.mined_whitelist@,
            settings.mined_highlight@,
            d.mined.unwrap(),
        ),
        _ => d.mined is None,
    }
    &&& match (settings.picked_up, statistics.picked_up) {
        (true, Option::Some(g)) => d.picked_up is Some && displayed_from(
            g@,
            settings.picked_up_whitelist@,
            settings.picked_up_highlight@,
            d.picked_up.unwrap(),
        ),
        _ => d.picked_up is None,
    }
}

impl DisplayedPlayerStatistics {
    /// Shapes a whole statistics bundle for display, group by group,
    /// honouring the per-group enable flags and key lists of the settings.
    pub fn calculate_displayed_statistics(
        statistics: &PlayerStatistics,
        settings: &SettingsPlayers,
    ) -> (d: DisplayedPlayerStatistics)
        ensures
            displayed_bundle_ok(*statistics, *settings, d),
    {
        let generic = if settings.enabled {
            match &statistics.generic {
                Option::Some(g) => Option::Some(
                    DisplayedStatistics::calculate_displayed(
                        g,
                        &settings.statistics_whitelist,
                        &settings.statistics_highlight,
                    ),
                ),
                Option::None => Option::None,
            }
        } else {
            Option::None
        };
        let used = if settings.used {
            match &statistics.used {
                Option::Some(g) => Option::Some(
                    DisplayedStatistics::calculate_displayed(
                        g,
                        &settings.used_whitelist,
                        &settings.used_highlight,
                    ),
                ),
                Option::None => Option::None,
            }
        } else {
            Option::None
        };
        let mined = if settings.mined {
            match &statistics.mined {
                Option::Some(g) => Option::Some(
                    DisplayedStatistics::calculate_displayed(
                        g,
                        &settings.mined_whitelist,
                        &settings.mined_highlight,
                    ),
                ),
                Option::None => Option::None,
            }
        } else {
            Option::None
        };
        let picked_up = if settings.picked_up {
            match &statistics.picked_up {
                Option::Some(g) => Option::Some(
                    DisplayedStatistics::calculate_displayed(
                        g,
                        &settings.picked_up_whitelist,
                        &settings.picked_up_highlight,
                    ),
                ),
                Option::None => Option::None,
            }
        } else {
            Option::None
        };
        DisplayedPlayerStatistics { generic, used, mined, picked_up }
    }
}

/// Whitelist/highlight partition: every raw statistic entry lands in
/// exactly one of the three buckets — filtered out (not whitelisted or
/// zero-valued), visible (kept and highlighted), or hidden (kept and not
/// highlighted) — decided by whitelist-then-highlight membership alone.
pub proof fn lemma_whitelist_highlight_partition(
    e: StatisticEntry,
    whitelist: Seq<String>,
    highlight: Seq<String>,
)
    ensures
        !entry_kept(e, whitelist) || visible_pred(whitelist, highlight)(e) || hidden_pred(
            whitelist,
            highlight,
        )(e),
        !(!entry_kept(e, whitelist) && visible_pred(whitelist, highlight)(e)),
        !(!entry_kept(e, whitelist) && hidden_pred(whitelist, highlight)(e)),
        !(visible_pred(whitelist, highlight)(e) && hidden_pred(whitelist, highlight)(e)),
{
}

/// A kept entry's classification reaches the side its highlight membership
/// routes it to.
pub proof fn lemma_displayed_membership(
    entries: Seq<StatisticEntry>,
    whitelist: Seq<String>,
    highlight: Seq<String>,
    d: DisplayedStatistics,
    i: int,
)
    requires
        displayed_from(entries, whitelist, highlight, d),
        0 <= i < entries.len(),
    ensures
        visible_pred(whitelist, highlight)(entries[i]) ==> d.visible@.contains(
            classify_entry(entries[i]),
        ),
        hidden_pred(whitelist, highlight)(entries[i]) ==> d.hidden@.contains(
            classify_entry(entries[i]),
        ),
{
    broadcast use vstd::seq_lib::group_to_multiset_ensures;

    let vp = visible_pred(whitelist, highlight);
    let hp = hidden_pred(whitelist, highlight);
    if vp(entries[i]) {
        entries.filter_lemma(vp);
        assert(entries.filter(vp).contains(entries[i]));
        let m = choose|m: int|
            0 <= m < entries.filter(vp).len() && entries.filter(vp)[m] == entries[i];
        assert(classified(entries.filter(vp))[m] == classify_entry(entries[i]));
        assert(classified(entries.filter(vp)).contains(classify_entry(entries[i])));
        assert(d.visible@.to_multiset().count(classify_entry(entries[i])) > 0);
        assert(d.visible@.contains(classify_entry(entries[i])));
    }
    if hp(entries[i]) {
        entries.filter_lemma(hp);
        assert(entries.filter(hp).contains(entries[i]));
        let m = choose|m: int|
            0 <= m < entries.filter(hp).len() && entries.filter(hp)[m] == entries[i];
        assert(classified(entries.filter(hp))[m] == classify_entry(entries[i]));
        assert(classified(entries.filter(hp)).contains(classify_entry(entries[i])));
        assert(d.hidden@.to_multiset().count(classify_entry(entries[i])) > 0);
        assert(d.hidden@.contains(classify_entry(entries[i])));
    }
}

/// A statistic group with each key held once, as a group built from a
/// JSON object is.
pub open spec fn unique_entry_keys(s: Seq<StatisticEntry>) -> bool {
    forall|a: int, b: int|
        0 <= a < b < s.len() ==> (#[trigger] s[a]).key@ != (#[trigger] s[b]).key@
}

/// Classification carries the entry's key through as the statistic's id.
proof fn lemma_classify_keeps_id(e: StatisticEntry)
    ensures
        stat_id(classify_entry(e)) == e.key@,
{
}

proof fn lemma_filter_unique_keys(s: Seq<StatisticEntry>, pred: spec_fn(StatisticEntry) -> bool)
    requires
        unique_entry_keys(s),
    ensures
        unique_entry_keys(s.filter(pred)),
    decreases s.len(),
{
    reveal(Seq::filter);
    if s.len() > 0 {
        let dl = s.drop_last();
        assert forall|a: int, b: int|
            0 <= a < b < dl.len() implies (#[trigger] dl[a]).key@ != (#[trigger] dl[b]).key@ by {
            assert(dl[a] == s[a]);
            assert(dl[b] == s[b]);
        }
        lemma_filter_unique_keys(dl, pred);
        crate::order::lemma_filter_contained(dl, pred);
        if pred(s.last()) {
            let f = s.filter(pred);
            assert(f == dl.filter(pred).push(s.last()));
            assert forall|a: int, b: int|
                0 <= a < b < f.len() implies (#[trigger] f[a]).key@ != (#[trigger] f[b]).key@ by {
                if b < f.len() - 1 {
                    assert(f[a] == dl.filter(pred)[a]);
                    assert(f[b] == dl.filter(pred)[b]);
                } else {
                    assert(f[a] == dl.filter(pred)[a]);
                    assert(dl.contains(f[a]));
                    let q = choose|q: int| 0 <= q < dl.len() && dl[q] == f[a];
                    assert(s[q] == f[a]);
                    assert(s[q].key@ != s[s.len() - 1].key@);
                }
            }
        }
    }
}

/// Whether a statistic's id is the key of some group entry that the
/// bucket's predicate keeps.
pub open spec fn id_from_group(
    s: Statistic,
    entries: Seq<StatisticEntry>,
    pred: spec_fn(StatisticEntry) -> bool,
) -> bool {
    exists|i: int|
        0 <= i < entries.len() && pred(#[trigger] entries[i]) && stat_id(s) == entries[i].key@
}

/// Whether a statistic's id is the key of some group entry.
pub open spec fn id_in_group(s: Statistic, entries: Seq<StatisticEntry>) -> bool {
    exists|i: int| 0 <= i < entries.len() && stat_id(s) == (#[trigger] entries[i]).key@
}

/// An entry of a unique-key group occupies one index: equal key views mean
/// the same entry.
proof fn lemma_unique_key_entry(s: Seq<StatisticEntry>, i: int, j: int)
    requires
        unique_entry_keys(s),
        0 <= i < s.len(),
        0 <= j < s.len(),
        s[i].key@ == s[j].key@,
    ensures
        i == j,
{
}

/// One side of the displayed statistics holds pairwise distinct ids when
/// the group's keys are unique.
proof fn lemma_side_ids_unique(
    entries: Seq<StatisticEntry>,
    pred: spec_fn(StatisticEntry) -> bool,
    side: Seq<Statistic>,
)
    requires
        unique_entry_keys(entries),
        side.to_multiset() == classified(entries.filter(pred)).to_multiset(),
    ensures
        forall|a: int, b: int|
            0 <= a < b < side.len() ==> stat_id(#[trigger] side[a]) != stat_id(#[trigger] side[b]),
        forall|a: int| 0 <= a < side.len() ==> id_from_group(#[trigger] side[a], entries, pred),
{
    broadcast use vstd::seq_lib::group_to_multiset_ensures;

    let fl = entries.filter(pred);
    let cl = classified(fl);
    lemma_filter_unique_keys(entries, pred);
    crate::order::lemma_filter_contained(entries, pred);
    entries.filter_lemma(pred);
    assert forall|m: int| 0 <= m < cl.len() implies stat_id(#[trigger] cl[m]) == fl[m].key@ by {
        lemma_classify_keeps_id(fl[m]);
    }
    assert(cl.no_duplicates()) by {
        assert forall|m1: int, m2: int|
            0 <= m1 < m2 < cl.len() implies cl[m1] != cl[m2] by {
            assert(fl[m1].key@ != fl[m2].key@);
            assert(stat_id(cl[m1]) != stat_id(cl[m2]));
        }
    }
    cl.lemma_multiset_has_no_duplicates();
    side.lemma_multiset_has_no_duplicates_conv();
    assert forall|a: int, b: int|
        0 <= a < b < side.len() implies stat_id(#[trigger] side[a]) != stat_id(
        #[trigger] side[b],
    ) by {
        assert(side.to_multiset().contains(side[a]));
        assert(cl.contains(side[a]));
        assert(side.to_multiset().contains(side[b]));
        assert(cl.contains(side[b]));
        let m1 = choose|m1: int| 0 <= m1 < cl.len() && cl[m1] == side[a];
        let m2 = choose|m2: int| 0 <= m2 < cl.len() && cl[m2] == side[b];
        if stat_id(side[a]) == stat_id(side[b]) {
            assert(fl[m1].key@ == fl[m2].key@);
            lemma_unique_key_entry(fl, m1, m2);
            assert(side[a] == side[b]);
            assert(side[a] != side[b]);
        }
    }
    assert forall|a: int| 0 <= a < side.len() implies id_from_group(
        #[trigger] side[a],
        entries,
        pred,
    ) by {
        assert(side.to_multiset().contains(side[a]));
        assert(cl.contains(side[a]));
        let m = choose|m: int| 0 <= m < cl.len() && cl[m] == side[a];
        assert(stat_id(side[a]) == fl[m].key@);
        assert(pred(fl[m]));
        assert(entries.contains(fl[m]));
        let i = choose|i: int| 0 <= i < entries.len() && entries[i] == fl[m];
        assert(pred(entries[i]) && stat_id(side[a]) == entries[i].key@);
    }
}

/// The exactly-once reading of the whitelist/highlight partition, for a
/// group whose keys are unique: each key of the group appears at most once
/// among the visible statistics and at most once among the hidden ones,
/// never on both sides, and no id from outside the group appears at all.
pub proof fn lemma_displayed_ids_unique(
    entries: Seq<StatisticEntry>,
    whitelist: Seq<String>,
    highlight: Seq<String>,
    d: DisplayedStatistics,
)
    requires
        displayed_from(entries, whitelist, highlight, d),
        unique_entry_keys(entries),
    ensures
        forall|a: int, b: int|
            0 <= a < b < d.visible@.len() ==> stat_id(#[trigger] d.visible@[a]) != stat_id(
                #[trigger] d.visible@[b],
            ),
        forall|a: int, b: int|
            0 <= a < b < d.hidden@.len() ==> stat_id(#[trigger] d.hidden@[a]) != stat_id(
                #[trigger] d.hidden@[b],
            ),
        forall|a: int, b: int|
            0 <= a < d.visible@.len() && 0 <= b < d.hidden@.len() ==> stat_id(
                #[trigger] d.visible@[a],
            ) != stat_id(#[trigger] d.hidden@[b]),
        forall|a: int| 0 <= a < d.visible@.len() ==> id_in_group(#[trigger] d.visible@[a], entries),
        forall|a: int| 0 <= a < d.hidden@.len() ==> id_in_group(#[trigger] d.hidden@[a], entries),
{
    let vp = visible_pred(whitelist, highlight);
    let hp = hidden_pred(whitelist, highlight);
    lemma_side_ids_unique(entries, vp, d.visible@);
    lemma_side_ids_unique(entries, hp, d.hidden@);
    assert forall|a: int, b: int|
        0 <= a < d.visible@.len() && 0 <= b < d.hidden@.len() implies stat_id(
        #[trigger] d.visible@[a],
    ) != stat_id(#[trigger] d.hidden@[b]) by {
        assert(id_from_group(d.visible@[a], entries, vp));
        assert(id_from_group(d.hidden@[b], entries, hp));
        let i = choose|i: int|
            0 <= i < entries.len() && vp(#[trigger] entries[i]) && stat_id(d.visible@[a])
                == entries[i].key@;
        let j = choose|j: int|
            0 <= j < entries.len() && hp(#[trigger] entries[j]) && stat_id(d.hidden@[b])
                == entries[j].key@;
        if stat_id(d.visible@[a]) == stat_id(d.hidden@[b]) {
            lemma_unique_key_entry(entries, i, j);
            assert(vp(entries[i]) && hp(entries[i]));
        }
    }
    assert forall|a: int| 0 <= a < d.visible@.len() implies id_in_group(
        #[trigger] d.visible@[a],
        entries,
    ) by {
        assert(id_from_group(d.visible@[a], entries, vp));
        let i = choose|i: int|
            0 <= i < entries.len() && vp(#[trigger] entries[i]) && stat_id(d.visible@[a])
                == entries[i].key@;
        assert(stat_id(d.visible@[a]) == entries[i].key@);
    }
    assert forall|a: int| 0 <= a < d.hidden@.len() implies id_in_group(
        #[trigger] d.hidden@[a],
        entries,
    ) by {
        assert(id_from_group(d.hidden@[a], entries, hp));
        let i = choose|i: int|
            0 <= i < entries.len() && hp(#[trigger] entries[i]) && stat_id(d.hidden@[a])
                == entries[i].key@;
        assert(stat_id(d.hidden@[a]) == entries[i].key@);
    }
}

} // verus!
