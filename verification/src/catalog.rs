use vstd::prelude::*;
use crate::errors::{InvalidReportError, ReportResult};
use crate::player::{
    displayed_bundle_ok, DisplayedPlayerStatistics, Player, SimplePlayer,
};
use crate::raw;
use crate::settings::SettingsPlayers;
use crate::team::TeamColor;

verus! {

/// The color a player inherits from the team lists: the color of the last
/// team that lists the player, or the given default for a player no team
/// lists.
pub open spec fn team_color_of(
    teams: Seq<raw::Team>,
    uuid: u128,
    default_color: TeamColor,
) -> TeamColor
    decreases teams.len(),
{
    if teams.len() == 0 {
        default_color
    } else if teams.last().players@.contains(uuid) {
        teams.last().color
    } else {
        team_color_of(teams.drop_last(), uuid, default_color)
    }
}

/// The team name attached to a player: the name of the first team that
/// lists the player, if any.
pub open spec fn team_name_of(teams: Seq<raw::Team>, uuid: u128) -> Option<String>
    decreases teams.len(),
{
    if teams.len() == 0 {
        Option::None
    } else if teams.first().players@.contains(uuid) {
        Option::Some(teams.first().name)
    } else {
        team_name_of(teams.drop_first(), uuid)
    }
}

pub(crate) fn contains_uuid(v: &Vec<u128>, x: u128) -> (r: bool)
    ensures
        r == v@.contains(x),
{
    let mut i: usize = 0;
    while i < v.len()
        invariant
            i <= v@.len(),
            forall|j: int| 0 <= j < i ==> v@[j] != x,
        decreases v@.len() - i,
    {
        if v[i] == x {
            return true;
        }
        i = i + 1;
    }
    false
}

fn color_of(teams: &Vec<raw::Team>, uuid: u128, default_color: TeamColor) -> (c: TeamColor)
    ensures
        c == team_color_of(teams@, uuid, default_color),
{
    let mut i: usize = teams.len();
    proof {
        assert(teams@.take(i as int) =~= teams@);
    }
    while i > 0
        invariant
            i <= teams@.len(),
            team_color_of(teams@, uuid, default_color) == team_color_of(
                teams@.take(i as int),
                uuid,
                default_color,
            ),
        decreases i,
    {
        i = i - 1;
        proof {
            assert(teams@.take(i + 1).drop_last() =~= teams@.take(i as int));
            assert(teams@.take(i + 1).last() == teams@[i as int]);
        }
        if contains_uuid(&teams[i].players, uuid) {
            return teams[i].color;
        }
    }
    default_color
}

fn team_of(teams: &Vec<raw::Team>, uuid: u128) -> (t: Option<String>)
    ensures
        t == team_name_of(teams@, uuid),
{
    let mut i: usize = 0;
    proof {
        assert(teams@.skip(0) =~= teams@);
    }
    while i < teams.len()
        invariant
            i <= teams@.len(),
            team_name_of(teams@, uuid) == team_name_of(teams@.skip(i as int), uuid),
        decreases teams@.len() - i,
    {
        proof {
            assert(teams@.skip(i as int).first() == teams@[i as int]);
            assert(teams@.skip(i as int).drop_first() =~= teams@.skip(i + 1));
        }
        if contains_uuid(&teams[i].players, uuid) {
            return Option::Some(teams[i].name.clone());
        }
        i = i + 1;
    }
    Option::None
}

/// What the canonical player built from a raw player guarantees: identity
/// and name are kept, the color and team name come from the team lists,
/// missing tag lines become empty ones, the raw statistics bundle is kept,
/// and the displayed statistics are shaped from it under the settings.
pub open spec fn player_matches_raw(
    p: Player,
    rp: raw::Player,
    teams: Seq<raw::Team>,
    default_color: TeamColor,
    settings: SettingsPlayers,
) -> bool {
    &&& p.uuid == rp.uuid
    &&& p.name == rp.name
    &&& p.color == team_color_of(teams, rp.uuid, default_color)
    &&& p.team == team_name_of(teams, rp.uuid)
    &&& match rp.tag_line {
        Option::Some(s) => p.tag_line == s,
        Option::None => p.tag_line@ == Seq::<char>::empty(),
    }
    &&& match rp.tag_line_secondary {
        Option::Some(s) => p.tag_line_secondary == s,
        Option::None => p.tag_line_secondary@ == Seq::<char>::empty(),
    }
    &&& match rp.tag_line_details {
        Option::Some(s) => p.tag_line_details == s,
        Option::None => p.tag_line_details@ == Seq::<char>::empty(),
    }
    &&& p.statistics == rp.statistics
    &&& match rp.statistics {
        Option::Some(st) => p.displayed_statistics is Some && displayed_bundle_ok(
            st,
            settings,
            p.displayed_statistics.unwrap(),
        ),
        Option::None => p.displayed_statistics is None,
    }
}

impl Player {
    /// Builds the canonical player from a raw player: assigns the team
    /// color and team name from the team lists and shapes the statistics
    /// for display under the settings.
    pub fn from_raw(
        rp: raw::Player,
        teams: &Vec<raw::Team>,
        default_color: TeamColor,
        settings: &SettingsPlayers,
    ) -> (p: Player)
        ensures
            player_matches_raw(p, rp, teams@, default_color, *settings),
    {
        let displayed_statistics = match &rp.statistics {
            Option::Some(st) => Option::Some(
                DisplayedPlayerStatistics::calculate_displayed_statistics(st, settings),
            ),
            Option::None => Option::None,
        };
        let color = color_of(teams, rp.uuid, default_color);
        let team = team_of(teams, rp.uuid);
        let tag_line = match rp.tag_line {
            Option::Some(s) => s,
            Option::None => String::new(),
        };
        let tag_line_secondary = match rp.tag_line_secondary {
            Option::Some(s) => s,
            Option::None => String::new(),
        };
        let tag_line_details = match rp.tag_line_details {
            Option::Some(s) => s,
            Option::None => String::new(),
        };
        Player {
            uuid: rp.uuid,
            name: rp.name,
            color,
            team,
            tag_line,
            tag_line_secondary,
            tag_line_details,
            statistics: rp.statistics,
            displayed_statistics,
        }
    }
}

/// Whether some raw player carries this identifier.
pub open spec fn raw_has(raws: Seq<raw::Player>, uuid: u128) -> bool {
    exists|i: int| 0 <= i < raws.len() && (#[trigger] raws[i]).uuid == uuid
}

/// The last raw player with this identifier, the occurrence that wins when
/// the raw list repeats an identifier.
pub open spec fn last_raw_with(raws: Seq<raw::Player>, uuid: u128) -> raw::Player
    decreases raws.len(),
{
    if raws.len() == 0 {
        arbitrary()
    } else if raws.first().uuid == uuid && !raw_has(raws.drop_first(), uuid) {
        raws.first()
    } else {
        last_raw_with(raws.drop_first(), uuid)
    }
}

/// The entity catalog: the canonical players of the report, each
/// identifier held by exactly one entry. Every other component resolves
/// its identifier references against it.
pub struct Catalog {
    pub players: Vec<Player>,
}

impl Catalog {
    /// Well-formed: no two entries share an identifier.
    pub open spec fn wf(self) -> bool {
        forall|i: int, j: int|
            0 <= i < j < self.players@.len() ==> (#[trigger] self.players@[i]).uuid != (
            #[trigger] self.players@[j]).uuid
    }

    /// Whether an identifier resolves in this catalog.
    pub open spec fn spec_has(self, uuid: u128) -> bool {
        exists|i: int| 0 <= i < self.players@.len() && (#[trigger] self.players@[i]).uuid == uuid
    }

    pub open spec fn index_of(self, uuid: u128) -> int {
        choose|i: int| 0 <= i < self.players@.len() && (#[trigger] self.players@[i]).uuid == uuid
    }

    /// The catalog entry an identifier resolves to.
    pub open spec fn spec_resolve(self, uuid: u128) -> Player {
        self.players@[self.index_of(uuid)]
    }

    /// Whether an identifier resolves in this catalog.
    pub fn has(&self, uuid: u128) -> (r: bool)
        ensures
            r == self.spec_has(uuid),
    {
        let mut i: usize = 0;
        while i < self.players.len()
            invariant
                i <= self.players@.len(),
                forall|j: int| 0 <= j < i ==> (#[trigger] self.players@[j]).uuid != uuid,
            decreases self.players@.len() - i,
        {
            if self.players[i].uuid == uuid {
                return true;
            }
            i = i + 1;
        }
        false
    }

    /// Resolves an identifier to its canonical player: succeeds exactly on
    /// the identifiers the catalog holds, and fails on every other with
    /// `MissingPlayerReference` carrying that identifier.
    pub fn resolve(&self, uuid: u128) -> (r: ReportResult<&Player>)
        requires
            self.wf(),
        ensures
            match r {
                Result::Ok(p) => self.spec_has(uuid) && *p == self.spec_resolve(uuid) && p.uuid
                    == uuid,
                Result::Err(e) => !self.spec_has(uuid) && e
                    == (InvalidReportError::MissingPlayerReference { uuid }),
            },
    {
        let mut i: usize = 0;
        while i < self.players.len()
            invariant
                self.wf(),
                i <= self.players@.len(),
                forall|j: int| 0 <= j < i ==> (#[trigger] self.players@[j]).uuid != uuid,
            decreases self.players@.len() - i,
        {
            if self.players[i].uuid == uuid {
                proof {
                    assert(self.spec_has(uuid));
                    let j = self.index_of(uuid);
                    assert(self.players@[j].uuid == uuid);
                    assert(j == i as int) by {
                        if j < i as int {
                            assert(self.players@[j].uuid != self.players@[i as int].uuid);
                        }
                        if (i as int) < j {
                            assert(self.players@[i as int].uuid != self.players@[j].uuid);
                        }
                    }
                }
                return Result::Ok(&self.players[i]);
            }
            i = i + 1;
        }
        Result::Err(InvalidReportError::MissingPlayerReference { uuid })
    }

    /// Resolves an identifier to the projection of its canonical player.
    pub fn resolve_simple(&self, uuid: u128) -> (r: ReportResult<SimplePlayer>)
        requires
            self.wf(),
        ensures
            match r {
                Result::Ok(sp) => self.spec_has(uuid) && sp == self.spec_resolve(
                    uuid,
                ).simple_spec() && sp.uuid == uuid,
                Result::Err(e) => !self.spec_has(uuid) && e
                    == (InvalidReportError::MissingPlayerReference { uuid }),
            },
    {
        match self.resolve(uuid) {
            Result::Ok(p) => Result::Ok(p.simple()),
            Result::Err(e) => Result::Err(e),
        }
    }

    /// Builds the catalog from the raw player and team lists: one entry
    /// per distinct identifier (the last raw occurrence wins), each entry
    /// built as [`Player::from_raw`] says.
    pub fn build(
        raw_players: Vec<raw::Player>,
        teams: &Vec<raw::Team>,
        default_color: TeamColor,
        settings: &SettingsPlayers,
    ) -> (c: Catalog)
        ensures
            c.wf(),
            forall|uuid: u128| c.spec_has(uuid) <==> raw_has(raw_players@, uuid),
            forall|uuid: u128|
                c.spec_has(uuid) ==> player_matches_raw(
                    #[trigger] c.spec_resolve(uuid),
                    last_raw_with(raw_players@, uuid),
                    teams@,
                    default_color,
                    *settings,
                ),
    {
        let ghost orig = raw_players@;
        let mut rest = raw_players;
        let mut c = Catalog { players: Vec::new() };
        proof {
            assert(orig.skip(orig.len() as int) =~= Seq::<raw::Player>::empty());
        }
        while rest.len() > 0
            invariant
                rest@.len() <= orig.len(),
                rest@ == orig.take(rest@.len() as int),
                c.wf(),
                forall|uuid: u128|
                    c.spec_has(uuid) <==> raw_has(orig.skip(rest@.len() as int), uuid),
                forall|uuid: u128|
                    c.spec_has(uuid) ==> player_matches_raw(
                        #[trigger] c.spec_resolve(uuid),
                        last_raw_with(orig.skip(rest@.len() as int), uuid),
                        teams@,
                        default_color,
                        *settings,
                    ),
            decreases rest@.len(),
        {
            let ghost cut = rest@.len() as int;
            let rp = match rest.pop() {
                Option::Some(x) => x,
                Option::None => {
                    proof {
                        assert(false);
                    }
                    return c;
                },
            };
            proof {
                assert(rest@ =~= orig.take(cut - 1));
                assert(rp == orig[cut - 1]);
                assert(orig.skip(cut - 1).first() == orig[cut - 1]);
                assert(orig.skip(cut - 1).drop_first() =~= orig.skip(cut));
            }
            let ghost c_before = c;
            if !c.has(rp.uuid) {
                let ghost new_uuid = rp.uuid;
                let p = Player::from_raw(rp, teams, default_color, settings);
                c.players.push(p);
                proof {
                    let n = c.players@.len() - 1;
                    assert(c.players@[n] == p);
                    assert forall|uuid: u128| c.spec_has(uuid) <==> raw_has(
                        orig.skip(cut - 1),
                        uuid,
                    ) by {
                        if uuid == new_uuid {
                            assert(c.players@[n].uuid == uuid);
                            assert(orig.skip(cut - 1)[0].uuid == uuid);
                        } else {
                            if c.spec_has(uuid) {
                                let i = choose|i: int|
                                    0 <= i < c.players@.len() && (#[trigger] c.players@[i]).uuid
                                        == uuid;
                                assert(c_before.players@[i].uuid == uuid);
                                assert(c_before.spec_has(uuid));
                            }
                            if raw_has(orig.skip(cut - 1), uuid) {
                                let i = choose|i: int|
                                    0 <= i < orig.skip(cut - 1).len() && (#[trigger] orig.skip(
                                        cut - 1,
                                    )[i]).uuid == uuid;
                                assert(orig.skip(cut - 1)[i] == orig.skip(cut)[i - 1]);
                                assert(raw_has(orig.skip(cut), uuid));
                                assert(c_before.spec_has(uuid));
                                let j = c_before.index_of(uuid);
                                assert(c.players@[j].uuid == uuid);
                            }
                        }
                    }
                    assert forall|uuid: u128| c.spec_has(uuid) implies player_matches_raw(
                        #[trigger] c.spec_resolve(uuid),
                        last_raw_with(orig.skip(cut - 1), uuid),
                        teams@,
                        default_color,
                        *settings,
                    ) by {
                        if uuid == new_uuid {
                            assert(c.spec_resolve(uuid) == p);
                            assert(!raw_has(orig.skip(cut), uuid));
                            assert(last_raw_with(orig.skip(cut - 1), uuid) == orig[cut - 1]);
                        } else {
                            assert(c_before.spec_has(uuid));
                            let j = c.index_of(uuid);
                            assert(j < n);
                            assert(c.spec_resolve(uuid) == c_before.players@[j]);
                            assert(c_before.spec_resolve(uuid) == c_before.players@[
                                c_before.index_of(uuid)
                            ]);
                            assert(c_before.players@[j] == c_before.spec_resolve(uuid)) by {
                                let j2 = c_before.index_of(uuid);
                                assert(c_before.players@[j2].uuid == uuid);
                                if j != j2 {
                                    assert(false);
                                }
                            }
                            assert(last_raw_with(orig.skip(cut - 1), uuid) == last_raw_with(
                                orig.skip(cut),
                                uuid,
                            ));
                        }
                    }
                }
            } else {
                proof {
                    assert forall|uuid: u128| c.spec_has(uuid) <==> raw_has(
                        orig.skip(cut - 1),
                        uuid,
                    ) by {
                        if raw_has(orig.skip(cut - 1), uuid) && uuid != rp.uuid {
                            let i = choose|i: int|
                                0 <= i < orig.skip(cut - 1).len() && (#[trigger] orig.skip(
                                    cut - 1,
                                )[i]).uuid == uuid;
                            assert(orig.skip(cut - 1)[i] == orig.skip(cut)[i - 1]);
                            assert(raw_has(orig.skip(cut), uuid));
                        }
                        if raw_has(orig.skip(cut), uuid) {
                            let i = choose|i: int|
                                0 <= i < orig.skip(cut).len() && (#[trigger] orig.skip(
                                    cut,
                                )[i]).uuid == uuid;
                            assert(orig.skip(cut - 1)[i + 1] == orig.skip(cut)[i]);
                            assert(raw_has(orig.skip(cut - 1), uuid));
                        }
                    }
                    assert forall|uuid: u128| c.spec_has(uuid) implies player_matches_raw(
                        #[trigger] c.spec_resolve(uuid),
                        last_raw_with(orig.skip(cut - 1), uuid),
                        teams@,
                        default_color,
                        *settings,
                    ) by {
                        assert(raw_has(orig.skip(cut), uuid) || uuid == rp.uuid);
                        if uuid == rp.uuid {
                            assert(raw_has(orig.skip(cut), uuid));
                        }
                        assert(last_raw_with(orig.skip(cut - 1), uuid) == last_raw_with(
                            orig.skip(cut),
                            uuid,
                        ));
                    }
                }
            }
        }
        proof {
            assert(orig.skip(0) =~= orig);
        }
        c
    }
}

} // verus!
