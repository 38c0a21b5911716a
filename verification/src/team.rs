use vstd::prelude::*;
use crate::catalog::Catalog;
use crate::errors::{InvalidReportError, ReportResult};
use crate::player::SimplePlayer;
use crate::raw;

verus! {

/// The color attached to a team, also painted on each of its members.
#[derive(Debug, Clone, Copy, PartialEq, Eq, Structural)]
pub enum TeamColor {
    Aqua,
    Black,
    Blue,
    DarkAqua,
    DarkBlue,
    DarkGray,
    DarkGreen,
    DarkPurple,
    DarkRed,
    Gold,
    Gray,
    Green,
    LightPurple,
    Red,
    White,
    Yellow,
    NoColor,
}

impl Default for TeamColor {
    /// A team without a color gets the none color.
    fn default() -> (c: Self)
        ensures
            c == TeamColor::NoColor,
    {
        TeamColor::NoColor
    }
}

/// The color given to a player who belongs to no team.
pub fn default_team_color() -> (c: TeamColor)
    ensures
        c == TeamColor::NoColor,
{
    TeamColor::NoColor
}

/// A team of the processed report: its members are resolved projections.
#[derive(Debug, Clone)]
pub struct Team {
    pub name: String,
    pub color: TeamColor,
    pub players: Vec<SimplePlayer>,
}

/// Whether every member of a raw team resolves in the catalog.
pub open spec fn team_resolves(rt: raw::Team, players: Catalog) -> bool {
    forall|i: int| 0 <= i < rt.players@.len() ==> players.spec_has(#[trigger] rt.players@[i])
}

/// The resolved member projections of a raw team, in member order.
pub open spec fn team_members_spec(rt: raw::Team, players: Catalog) -> Seq<SimplePlayer> {
    rt.players@.map_values(|u: u128| players.spec_resolve(u).simple_spec())
}

/// What the processed team built from a raw team guarantees.
pub open spec fn team_matches_raw(t: Team, rt: raw::Team, players: Catalog) -> bool {
    t.name == rt.name && t.color == rt.color && t.players@ == team_members_spec(rt, players)
}

/// The error a raw team with a dangling member fails with: the first
/// member that does not resolve.
pub open spec fn team_error_at(rt: raw::Team, players: Catalog, e: InvalidReportError) -> bool {
    exists|i: int|
        {
            &&& 0 <= i < rt.players@.len()
            &&& !players.spec_has(#[trigger] rt.players@[i])
            &&& forall|j: int| 0 <= j < i ==> players.spec_has(#[trigger] rt.players@[j])
            &&& e == (InvalidReportError::MissingPlayerReference { uuid: rt.players@[i] })
        }
}

impl Team {
    /// Resolves every member of a raw team into its catalog projection;
    /// fails with `MissingPlayerReference` on the first dangling member.
    #[verifier::loop_isolation(false)]
    pub fn from_raw(raw_team: raw::Team, players: &Catalog) -> (r: ReportResult<Team>)
        requires
            players.wf(),
        ensures
            match r {
                Result::Ok(t) => team_resolves(raw_team, *players) && team_matches_raw(
                    t,
                    raw_team,
                    *players,
                ),
                Result::Err(e) => !team_resolves(raw_team, *players) && team_error_at(
                    raw_team,
                    *players,
                    e,
                ),
            },
    {
        let ghost f = |u: u128| players.spec_resolve(u).simple_spec();
        let mut members: Vec<SimplePlayer> = Vec::new();
        let mut i: usize = 0;
        proof {
            assert(members@ =~= raw_team.players@.take(0int).map_values(f));
        }
        while i < raw_team.players.len()
            invariant
                i <= raw_team.players@.len(),
                members@ == raw_team.players@.take(i as int).map_values(f),
                forall|j: int|
                    0 <= j < i ==> players.spec_has(#[trigger] raw_team.players@[j]),
            decreases raw_team.players@.len() - i,
        {
            match players.resolve_simple(raw_team.players[i]) {
                Result::Ok(sp) => {
                    members.push(sp);
                    proof {
                        assert(members@ =~= raw_team.players@.take(i + 1).map_values(f));
                    }
                },
                Result::Err(e) => {
                    return Result::Err(e);
                },
            }
            i = i + 1;
        }
        proof {
            assert(raw_team.players@.take(i as int) =~= raw_team.players@);
        }
        Result::Ok(Team { name: raw_team.name, color: raw_team.color, players: members })
    }

    /// Resolves every raw team; fails with `MissingPlayerReference` on the
    /// first dangling member of the first unresolvable team.
    #[verifier::loop_isolation(false)]
    pub fn from_raw_vec(raw_teams: Vec<raw::Team>, players: &Catalog) -> (r: ReportResult<
        Vec<Team>,
    >)
        requires
            players.wf(),
        ensures
            match r {
                Result::Ok(ts) => {
                    &&& ts@.len() == raw_teams@.len()
                    &&& forall|i: int|
                        0 <= i < raw_teams@.len() ==> team_resolves(
                            #[trigger] raw_teams@[i],
                            *players,
                        ) && team_matches_raw(ts@[i], raw_teams@[i], *players)
                },
                Result::Err(e) => exists|i: int|
                    {
                        &&& 0 <= i < raw_teams@.len()
                        &&& !team_resolves(#[trigger] raw_teams@[i], *players)
                        &&& forall|j: int|
                            0 <= j < i ==> team_resolves(#[trigger] raw_teams@[j], *players)
                        &&& team_error_at(raw_teams@[i], *players, e)
                    },
            },
    {
        let ghost orig = raw_teams@;
        let mut rest = raw_teams;
        let mut teams: Vec<Team> = Vec::new();
        let ghost mut i: int = 0;
        proof {
            assert(rest@ =~= orig.skip(0));
        }
        while rest.len() > 0
            invariant
                0 <= i <= orig.len(),
                rest@ == orig.skip(i),
                teams@.len() == i,
                forall|j: int|
                    0 <= j < i ==> team_resolves(#[trigger] orig[j], *players)
                        && team_matches_raw(teams@[j], orig[j], *players),
            decreases rest@.len(),
        {
            let rt = rest.remove(0);
            proof {
                assert(rt == orig[i]);
                assert(rest@ =~= orig.skip(i + 1));
            }
            match Team::from_raw(rt, players) {
                Result::Ok(t) => {
                    teams.push(t);
                },
                Result::Err(e) => {
                    return Result::Err(e);
                },
            }
            proof {
                i = i + 1;
            }
        }
        Result::Ok(teams)
    }
}

} // verus!
