use vstd::prelude::*;
use crate::aggregates::{aggregate_ok, lethal_pred, Aggregate};
use crate::catalog::{last_raw_with, player_matches_raw, raw_has, Catalog};
use crate::damage::{
    damage_error, damage_from_raw_spec, damage_resolves, merge_result, Damage,
};
use crate::errors::{InvalidReportError, ReportResult};
use crate::event::{event_from_raw_spec, Event};
use crate::heal::{heal_from_raw_spec, Heal};
use crate::order::{lemma_filter_contained, seq_sorted, sort_total};
use crate::player::{Player, SimplePlayer};
use crate::raw;
use crate::settings::{Settings, SettingsPlayers};
use crate::team::{team_error_at, team_matches_raw, team_resolves, Team};

verus! {

broadcast use vstd::seq_lib::group_to_multiset_ensures;

/// Elapsed milliseconds from `before` to `now`, zero when `now` is earlier.
pub open spec fn spec_since(now: i64, before: i64) -> u64 {
    if now >= before {
        (now - before) as u64
    } else {
        0
    }
}

/// Elapsed milliseconds from `before` to `now`; a `now` earlier than
/// `before` counts as zero elapsed time.
pub fn since(now: i64, before: i64) -> (r: u64)
    ensures
        r == spec_since(now, before),
{
    if now >= before {
        ((now as i128) - (before as i128)) as u64
    } else {
        0
    }
}

/// The fully processed report: every reference resolved, damages merged,
/// every event sequence in timestamp order, and the aggregates attached.
pub struct Report {
    pub match_uuid: u128,
    pub title: String,
    /// Absolute timestamp of the match start, in milliseconds.
    pub date: i64,
    pub minecraft: Option<String>,
    pub settings: Settings,
    pub players: Vec<Player>,
    pub teams: Vec<Team>,
    pub winners: Vec<SimplePlayer>,
    pub damages: Vec<Damage>,
    pub heals: Vec<Heal>,
    pub events: Vec<Event>,
    pub aggregates: Aggregate,
    pub has_players_without_team: bool,
}

/// What the catalog built for a raw report guarantees (see
/// [`Catalog::build`]); the team-less default color is the none color.
pub open spec fn catalog_matches_raw(
    cat: Catalog,
    raw_players: Seq<raw::Player>,
    raw_teams: Seq<raw::Team>,
    settings: SettingsPlayers,
) -> bool {
    &&& cat.wf()
    &&& forall|uuid: u128| cat.spec_has(uuid) <==> raw_has(raw_players, uuid)
    &&& forall|uuid: u128|
        cat.spec_has(uuid) ==> player_matches_raw(
            #[trigger] cat.spec_resolve(uuid),
            last_raw_with(raw_players, uuid),
            raw_teams,
            crate::team::TeamColor::NoColor,
            settings,
        )
}

/// What the normalized damages guarantee: every reference resolves, the
/// output is the merge pass over the converted damages (as a multiset),
/// and it is sorted by timestamp.
pub open spec fn damages_ok(
    raw_damages: Seq<raw::Damage>,
    players: Catalog,
    begin: i64,
    ds: Seq<Damage>,
) -> bool {
    &&& forall|i: int|
        0 <= i < raw_damages.len() ==> damage_resolves(#[trigger] raw_damages[i], players)
    &&& ds.to_multiset() == merge_result(
        raw_damages.map_values(|rd: raw::Damage| damage_from_raw_spec(rd, players, begin)),
    ).to_multiset()
    &&& seq_sorted(ds)
}

/// What the normalized heals guarantee: every reference resolves, the
/// output holds exactly the converted heals, sorted by timestamp.
pub open spec fn heals_ok(
    raw_heals: Seq<raw::Heal>,
    players: Catalog,
    begin: i64,
    hs: Seq<Heal>,
) -> bool {
    &&& forall|i: int| 0 <= i < raw_heals.len() ==> players.spec_has((#[trigger] raw_heals[i]).healed)
    &&& hs.to_multiset() == raw_heals.map_values(
        |rh: raw::Heal| heal_from_raw_spec(rh, players, begin),
    ).to_multiset()
    &&& seq_sorted(hs)
}

/// What the normalized timeline events guarantee: exactly the stamped
/// events, sorted by timestamp.
pub open spec fn events_ok(raw_events: Seq<raw::Event>, begin: i64, es: Seq<Event>) -> bool {
    &&& es.to_multiset() == raw_events.map_values(
        |re: raw::Event| event_from_raw_spec(re, begin),
    ).to_multiset()
    &&& seq_sorted(es)
}

/// Whether a player was never the damagee of a lethal damage.
pub open spec fn is_survivor(uuid: u128, damages: Seq<Damage>) -> bool {
    forall|i: int|
        0 <= i < damages.len() ==> !((#[trigger] damages[i]).lethal && damages[i].damagee.uuid
            == uuid)
}

/// The projections of the catalog players that survived, in catalog order.
pub open spec fn survivors_spec(cat: Catalog, damages: Seq<Damage>) -> Seq<SimplePlayer> {
    cat.players@.filter(|p: Player| is_survivor(p.uuid, damages)).map_values(
        |p: Player| p.simple_spec(),
    )
}

/// What the winners list guarantees: an explicit non-empty raw winners
/// list is resolved member by member; otherwise the winners are the
/// survivors by elimination. Either way the list is sorted by name.
pub open spec fn winners_ok(
    raw_winners: Option<Vec<u128>>,
    cat: Catalog,
    damages: Seq<Damage>,
    ws: Seq<SimplePlayer>,
) -> bool {
    &&& seq_sorted(ws)
    &&& match raw_winners {
        Option::Some(list) => if list@.len() > 0 {
            (forall|i: int| 0 <= i < list@.len() ==> cat.spec_has(#[trigger] list@[i]))
                && ws.to_multiset() == list@.map_values(
                |u: u128| cat.spec_resolve(u).simple_spec(),
            ).to_multiset()
        } else {
            ws.to_multiset() == survivors_spec(cat, damages).to_multiset()
        },
        Option::None => ws.to_multiset() == survivors_spec(cat, damages).to_multiset(),
    }
}

/// Whether an identifier is referenced anywhere in the raw report outside
/// the player list itself: as a damagee or damage cause, as a healed
/// player, as a winner, or as a team member.
pub open spec fn referenced_in_raw(uuid: u128, raw_report: raw::Report) -> bool {
    ||| exists|i: int|
        0 <= i < raw_report.damages@.len() && ((#[trigger] raw_report.damages@[i]).damagee == uuid
            || match raw_report.damages@[i].cause {
            raw::DamageCause::Player(p) => p.player == uuid,
            _ => false,
        })
    ||| exists|i: int| 0 <= i < raw_report.heals@.len() && (#[trigger] raw_report.heals@[i]).healed
        == uuid
    ||| match raw_report.winners {
        Option::Some(ws) => ws@.contains(uuid),
        Option::None => false,
    }
    ||| exists|i: int|
        0 <= i < raw_report.teams@.len() && (#[trigger] raw_report.teams@[i]).players@.contains(
            uuid,
        )
}

/// Whether some raw damage carries a dangling reference.
pub open spec fn some_damage_dangles(raw_damages: Seq<raw::Damage>, cat: Catalog) -> bool {
    exists|i: int| 0 <= i < raw_damages.len() && !damage_resolves(#[trigger] raw_damages[i], cat)
}

/// Whether some raw heal names a healed player the catalog lacks.
pub open spec fn some_heal_dangles(raw_heals: Seq<raw::Heal>, cat: Catalog) -> bool {
    exists|i: int| 0 <= i < raw_heals.len() && !cat.spec_has((#[trigger] raw_heals[i]).healed)
}

/// Whether a non-empty explicit winners list names a player the catalog
/// lacks.
pub open spec fn some_winner_dangles(raw_winners: Option<Vec<u128>>, cat: Catalog) -> bool {
    match raw_winners {
        Option::Some(ws) => ws@.len() > 0 && exists|i: int|
            0 <= i < ws@.len() && !cat.spec_has(#[trigger] ws@[i]),
        Option::None => false,
    }
}

/// The error of the first damage, in the given order, with a dangling
/// reference.
pub open spec fn first_damage_error(
    sd: Seq<raw::Damage>,
    cat: Catalog,
    e: InvalidReportError,
) -> bool {
    exists|i: int|
        {
            &&& 0 <= i < sd.len()
            &&& !damage_resolves(#[trigger] sd[i], cat)
            &&& forall|j: int| 0 <= j < i ==> damage_resolves(#[trigger] sd[j], cat)
            &&& e == damage_error(sd[i], cat)
        }
}

/// The error reported when the damage phase fails: the first dangling
/// reference of the damages walked in chronological order.
#[verifier::opaque]
pub open spec fn damage_phase_error(
    raw_report: raw::Report,
    cat: Catalog,
    e: InvalidReportError,
) -> bool {
    exists|sd: Seq<raw::Damage>|
        {
            &&& sd.to_multiset() == raw_report.damages@.to_multiset()
            &&& seq_sorted(sd)
            &&& #[trigger] first_damage_error(sd, cat, e)
        }
}

/// The error reported when the heal phase fails: the first heal whose
/// healed player dangles.
#[verifier::opaque]
pub open spec fn heal_phase_error(
    raw_report: raw::Report,
    cat: Catalog,
    e: InvalidReportError,
) -> bool {
    exists|i: int|
        {
            &&& 0 <= i < raw_report.heals@.len()
            &&& !cat.spec_has((#[trigger] raw_report.heals@[i]).healed)
            &&& forall|j: int|
                0 <= j < i ==> cat.spec_has((#[trigger] raw_report.heals@[j]).healed)
            &&& e == (InvalidReportError::MissingPlayerReference {
                uuid: raw_report.heals@[i].healed,
            })
        }
}

/// The error reported when the winners phase fails: the first dangling
/// identifier of the explicit winners list.
#[verifier::opaque]
pub open spec fn winner_phase_error(
    raw_report: raw::Report,
    cat: Catalog,
    e: InvalidReportError,
) -> bool {
    match raw_report.winners {
        Option::Some(ws) => exists|i: int|
            {
                &&& 0 <= i < ws@.len()
                &&& !cat.spec_has(#[trigger] ws@[i])
                &&& forall|j: int| 0 <= j < i ==> cat.spec_has(#[trigger] ws@[j])
                &&& e == (InvalidReportError::MissingPlayerReference { uuid: ws@[i] })
            },
        Option::None => false,
    }
}

/// The error reported when the team phase fails: the first dangling member
/// of the first unresolvable team.
#[verifier::opaque]
pub open spec fn team_phase_error(
    raw_report: raw::Report,
    cat: Catalog,
    e: InvalidReportError,
) -> bool {
    exists|ti: int|
        {
            &&& 0 <= ti < raw_report.teams@.len()
            &&& !team_resolves(#[trigger] raw_report.teams@[ti], cat)
            &&& forall|tj: int|
                0 <= tj < ti ==> team_resolves(#[trigger] raw_report.teams@[tj], cat)
            &&& team_error_at(raw_report.teams@[ti], cat, e)
        }
}

/// The pipeline fails at the first dangling reference, phase by phase: the
/// damages first (walked in chronological order), then the heals, then a
/// non-empty explicit winners list, then the team members, each phase in
/// document order.
pub open spec fn first_error_ok(
    raw_report: raw::Report,
    cat: Catalog,
    e: InvalidReportError,
) -> bool {
    if some_damage_dangles(raw_report.damages@, cat) {
        damage_phase_error(raw_report, cat, e)
    } else if some_heal_dangles(raw_report.heals@, cat) {
        heal_phase_error(raw_report, cat, e)
    } else if some_winner_dangles(raw_report.winners, cat) {
        winner_phase_error(raw_report, cat, e)
    } else {
        team_phase_error(raw_report, cat, e)
    }
}

/// A failing damage phase reports the first dangling reference of the
/// date-sorted damages, an identifier the raw report references.
#[verifier::spinoff_prover]
proof fn lemma_damage_phase_err(
    raw_report: raw::Report,
    cat: Catalog,
    sd: Seq<raw::Damage>,
    e: InvalidReportError,
)
    requires
        sd.to_multiset() == raw_report.damages@.to_multiset(),
        seq_sorted(sd),
        exists|i: int|
            {
                &&& 0 <= i < sd.len()
                &&& !damage_resolves(#[trigger] sd[i], cat)
                &&& forall|j: int| 0 <= j < i ==> damage_resolves(#[trigger] sd[j], cat)
                &&& e == damage_error(sd[i], cat)
            },
    ensures
        match e {
            InvalidReportError::MissingPlayerReference { uuid } => !cat.spec_has(uuid)
                && referenced_in_raw(uuid, raw_report),
            InvalidReportError::Unknown => false,
        },
        first_error_ok(raw_report, cat, e),
{
    let i = choose|i: int|
        {
            &&& 0 <= i < sd.len()
            &&& !damage_resolves(#[trigger] sd[i], cat)
            &&& forall|j: int| 0 <= j < i ==> damage_resolves(#[trigger] sd[j], cat)
            &&& e == damage_error(sd[i], cat)
        };
    assert(e == (InvalidReportError::MissingPlayerReference {
        uuid: damage_error_uuid(sd[i], cat),
    }));
    assert(!cat.spec_has(damage_error_uuid(sd[i], cat)));
    assert(sd.to_multiset().contains(sd[i]));
    assert(raw_report.damages@.to_multiset().contains(sd[i]));
    assert(raw_report.damages@.contains(sd[i]));
    let q = choose|q: int| 0 <= q < raw_report.damages@.len() && raw_report.damages@[q] == sd[i];
    assert(referenced_in_raw(damage_error_uuid(sd[i], cat), raw_report)) by {
        if !cat.spec_has(sd[i].damagee) {
            assert(raw_report.damages@[q].damagee == sd[i].damagee);
        } else {
            assert(match raw_report.damages@[q].cause {
                raw::DamageCause::Player(p) => p.player == damage_error_uuid(sd[i], cat),
                _ => false,
            });
        }
    }
    assert(!damage_resolves(raw_report.damages@[q], cat));
    assert(some_damage_dangles(raw_report.damages@, cat));
    assert(first_damage_error(sd, cat, e));
    assert(damage_phase_error(raw_report, cat, e)) by {
        reveal(damage_phase_error);
    }
}

/// After a successful damage phase no raw damage dangles.
#[verifier::spinoff_prover]
proof fn lemma_damage_phase_ok(raw_report: raw::Report, cat: Catalog, sd: Seq<raw::Damage>)
    requires
        sd.to_multiset() == raw_report.damages@.to_multiset(),
        forall|i: int| 0 <= i < sd.len() ==> damage_resolves(#[trigger] sd[i], cat),
    ensures
        !some_damage_dangles(raw_report.damages@, cat),
{
    assert forall|q: int|
        0 <= q < raw_report.damages@.len() implies damage_resolves(
        #[trigger] raw_report.damages@[q],
        cat,
    ) by {
        assert(raw_report.damages@.to_multiset().contains(raw_report.damages@[q]));
        assert(sd.to_multiset().contains(raw_report.damages@[q]));
        assert(sd.contains(raw_report.damages@[q]));
        let m = choose|m: int| 0 <= m < sd.len() && sd[m] == raw_report.damages@[q];
        assert(damage_resolves(sd[m], cat));
    }
}

/// A failing heal phase, after a clean damage phase, reports the first
/// dangling healed player.
#[verifier::spinoff_prover]
proof fn lemma_heal_phase_err(raw_report: raw::Report, cat: Catalog, e: InvalidReportError)
    requires
        !some_damage_dangles(raw_report.damages@, cat),
        exists|i: int|
            {
                &&& 0 <= i < raw_report.heals@.len()
                &&& !cat.spec_has((#[trigger] raw_report.heals@[i]).healed)
                &&& forall|j: int|
                    0 <= j < i ==> cat.spec_has((#[trigger] raw_report.heals@[j]).healed)
                &&& e == (InvalidReportError::MissingPlayerReference {
                    uuid: raw_report.heals@[i].healed,
                })
            },
    ensures
        match e {
            InvalidReportError::MissingPlayerReference { uuid } => !cat.spec_has(uuid)
                && referenced_in_raw(uuid, raw_report),
            InvalidReportError::Unknown => false,
        },
        first_error_ok(raw_report, cat, e),
{
    let i = choose|i: int|
        {
            &&& 0 <= i < raw_report.heals@.len()
            &&& !cat.spec_has((#[trigger] raw_report.heals@[i]).healed)
            &&& forall|j: int|
                0 <= j < i ==> cat.spec_has((#[trigger] raw_report.heals@[j]).healed)
            &&& e == (InvalidReportError::MissingPlayerReference {
                uuid: raw_report.heals@[i].healed,
            })
        };
    assert(some_heal_dangles(raw_report.heals@, cat));
    assert(!cat.spec_has(raw_report.heals@[i].healed));
    assert(referenced_in_raw(raw_report.heals@[i].healed, raw_report));
    assert(heal_phase_error(raw_report, cat, e)) by {
        reveal(heal_phase_error);
    }
    assert(first_error_ok(raw_report, cat, e));
}

/// A failing winners phase, after clean damage and heal phases, reports
/// the first dangling explicit winner.
#[verifier::spinoff_prover]
proof fn lemma_winner_phase_err(
    raw_report: raw::Report,
    cat: Catalog,
    ws: Vec<u128>,
    e: InvalidReportError,
)
    requires
        raw_report.winners == Option::Some(ws),
        ws@.len() > 0,
        !some_damage_dangles(raw_report.damages@, cat),
        !some_heal_dangles(raw_report.heals@, cat),
        exists|i: int|
            {
                &&& 0 <= i < ws@.len()
                &&& !cat.spec_has(#[trigger] ws@[i])
                &&& forall|j: int| 0 <= j < i ==> cat.spec_has(#[trigger] ws@[j])
                &&& e == (InvalidReportError::MissingPlayerReference { uuid: ws@[i] })
            },
    ensures
        match e {
            InvalidReportError::MissingPlayerReference { uuid } => !cat.spec_has(uuid)
                && referenced_in_raw(uuid, raw_report),
            InvalidReportError::Unknown => false,
        },
        first_error_ok(raw_report, cat, e),
{
    let i = choose|i: int|
        {
            &&& 0 <= i < ws@.len()
            &&& !cat.spec_has(#[trigger] ws@[i])
            &&& forall|j: int| 0 <= j < i ==> cat.spec_has(#[trigger] ws@[j])
            &&& e == (InvalidReportError::MissingPlayerReference { uuid: ws@[i] })
        };
    assert(ws@.contains(ws@[i]));
    assert(some_winner_dangles(raw_report.winners, cat));
    assert(winner_phase_error(raw_report, cat, e)) by {
        reveal(winner_phase_error);
    }
}

/// A failing team phase, after every earlier phase was clean, reports the
/// first dangling member of the first unresolvable team.
#[verifier::spinoff_prover]
proof fn lemma_team_phase_err(raw_report: raw::Report, cat: Catalog, e: InvalidReportError)
    requires
        !some_damage_dangles(raw_report.damages@, cat),
        !some_heal_dangles(raw_report.heals@, cat),
        !some_winner_dangles(raw_report.winners, cat),
        exists|ti: int|
            {
                &&& 0 <= ti < raw_report.teams@.len()
                &&& !team_resolves(#[trigger] raw_report.teams@[ti], cat)
                &&& forall|tj: int|
                    0 <= tj < ti ==> team_resolves(#[trigger] raw_report.teams@[tj], cat)
                &&& team_error_at(raw_report.teams@[ti], cat, e)
            },
    ensures
        match e {
            InvalidReportError::MissingPlayerReference { uuid } => !cat.spec_has(uuid)
                && referenced_in_raw(uuid, raw_report),
            InvalidReportError::Unknown => false,
        },
        first_error_ok(raw_report, cat, e),
{
    let ti = choose|ti: int|
        {
            &&& 0 <= ti < raw_report.teams@.len()
            &&& !team_resolves(#[trigger] raw_report.teams@[ti], cat)
            &&& forall|tj: int|
                0 <= tj < ti ==> team_resolves(#[trigger] raw_report.teams@[tj], cat)
            &&& team_error_at(raw_report.teams@[ti], cat, e)
        };
    let mi = choose|mi: int|
        {
            &&& 0 <= mi < raw_report.teams@[ti].players@.len()
            &&& !cat.spec_has(#[trigger] raw_report.teams@[ti].players@[mi])
            &&& e == (InvalidReportError::MissingPlayerReference {
                uuid: raw_report.teams@[ti].players@[mi],
            })
        };
    assert(raw_report.teams@[ti].players@.contains(raw_report.teams@[ti].players@[mi]));
    assert(team_phase_error(raw_report, cat, e)) by {
        reveal(team_phase_error);
    }
}

/// What every field of the processed report guarantees, against the
/// catalog built from the raw report and the date-sorted raw damages the
/// merge pass ran over.
pub open spec fn report_fields_ok(
    rep: Report,
    raw_report: raw::Report,
    cat: Catalog,
    sorted_damages: Seq<raw::Damage>,
) -> bool {
    &&& rep.match_uuid == raw_report.match_uuid
    &&& rep.title == raw_report.title
    &&& rep.date == raw_report.date
    &&& rep.minecraft == raw_report.minecraft
    &&& rep.settings == raw_report.settings
    &&& rep.players@.to_multiset() == cat.players@.to_multiset()
    &&& seq_sorted(rep.players@)
    &&& rep.teams@.len() == raw_report.teams@.len()
    &&& forall|i: int|
        0 <= i < raw_report.teams@.len() ==> team_resolves(#[trigger] raw_report.teams@[i], cat)
            && team_matches_raw(rep.teams@[i], raw_report.teams@[i], cat)
    &&& winners_ok(raw_report.winners, cat, rep.damages@, rep.winners@)
    &&& sorted_damages.to_multiset() == raw_report.damages@.to_multiset()
    &&& seq_sorted(sorted_damages)
    &&& damages_ok(sorted_damages, cat, raw_report.date, rep.damages@)
    &&& heals_ok(raw_report.heals@, cat, raw_report.date, rep.heals@)
    &&& events_ok(raw_report.events@, raw_report.date, rep.events@)
    &&& aggregate_ok(
        cat,
        rep.damages@,
        rep.heals@,
        raw_report.date,
        raw_report.settings.players,
        rep.aggregates,
    )
    &&& rep.has_players_without_team == exists|i: int|
        0 <= i < cat.players@.len() && (#[trigger] cat.players@[i]).team is None
}

/// The winners by elimination: every catalog player that no lethal damage
/// ever hit, sorted by name.
#[verifier::loop_isolation(false)]
fn extract_winners(players: &Catalog, damages: &Vec<Damage>) -> (ws: Vec<SimplePlayer>)
    ensures
        ws@.to_multiset() == survivors_spec(*players, damages@).to_multiset(),
        seq_sorted(ws@),
{
    let ghost lp = lethal_pred();
    let ghost du = |d: Damage| d.damagee.uuid;
    let mut deads: Vec<u128> = Vec::new();
    let mut i: usize = 0;
    proof {
        reveal(Seq::filter);
        assert(damages@.take(0int) =~= Seq::<Damage>::empty());
    }
    while i < damages.len()
        invariant
            i <= damages@.len(),
            deads@ == damages@.take(i as int).filter(lp).map_values(du),
        decreases damages@.len() - i,
    {
        proof {
            let pre = damages@.take(i as int);
            let post = damages@.take(i + 1);
            assert(post.drop_last() =~= pre);
            assert(post.last() == damages@[i as int]);
        }
        if damages[i].lethal {
            deads.push(damages[i].damagee.uuid);
            proof {
                let pre = damages@.take(i as int);
                assert(deads@ =~= pre.filter(lp).push(damages@[i as int]).map_values(du));
            }
        }
        i = i + 1;
    }
    proof {
        assert(damages@.take(i as int) =~= damages@);
        lemma_filter_contained(damages@, lp);
        assert forall|u: u128| deads@.contains(u) == !is_survivor(u, damages@) by {
            let fl = damages@.filter(lp);
            if deads@.contains(u) {
                let m = choose|m: int| 0 <= m < deads@.len() && deads@[m] == u;
                assert(deads@[m] == fl[m].damagee.uuid);
                assert(lp(fl[m]));
                assert(damages@.contains(fl[m]));
                let q = choose|q: int| 0 <= q < damages@.len() && damages@[q] == fl[m];
                assert(damages@[q].lethal && damages@[q].damagee.uuid == u);
            }
            if !is_survivor(u, damages@) {
                let q = choose|q: int|
                    0 <= q < damages@.len() && (#[trigger] damages@[q]).lethal
                        && damages@[q].damagee.uuid == u;
                damages@.filter_lemma(lp);
                assert(fl.contains(damages@[q]));
                let m = choose|m: int| 0 <= m < fl.len() && fl[m] == damages@[q];
                assert(deads@[m] == u);
            }
        }
    }
    let ghost sv = |p: Player| is_survivor(p.uuid, damages@);
    let ghost sp = |p: Player| p.simple_spec();
    let mut out: Vec<SimplePlayer> = Vec::new();
    let mut p: usize = 0;
    proof {
        assert(players.players@.take(0int) =~= Seq::<Player>::empty());
    }
    while p < players.players.len()
        invariant
            p <= players.players@.len(),
            out@ == players.players@.take(p as int).filter(sv).map_values(sp),
        decreases players.players@.len() - p,
    {
        proof {
            let pre = players.players@.take(p as int);
            let post = players.players@.take(p + 1);
            assert(post.drop_last() =~= pre);
            assert(post.last() == players.players@[p as int]);
        }
        if !crate::catalog::contains_uuid(&deads, players.players[p].uuid) {
            out.push(players.players[p].simple());
            proof {
                let pre = players.players@.take(p as int);
                assert(out@ =~= pre.filter(sv).push(players.players@[p as int]).map_values(sp));
            }
        }
        p = p + 1;
    }
    proof {
        assert(players.players@.take(p as int) =~= players.players@);
    }
    sort_total(out)
}

/// Resolves an explicit winners list and sorts it by name; fails with
/// `MissingPlayerReference` on the first dangling identifier.
#[verifier::loop_isolation(false)]
fn resolve_winners(list: &Vec<u128>, players: &Catalog) -> (r: ReportResult<Vec<SimplePlayer>>)
    requires
        players.wf(),
    ensures
        match r {
            Result::Ok(ws) => {
                &&& forall|i: int| 0 <= i < list@.len() ==> players.spec_has(#[trigger] list@[i])
                &&& ws@.to_multiset() == list@.map_values(
                    |u: u128| players.spec_resolve(u).simple_spec(),
                ).to_multiset()
                &&& seq_sorted(ws@)
            },
            Result::Err(e) => exists|i: int|
                {
                    &&& 0 <= i < list@.len()
                    &&& !players.spec_has(#[trigger] list@[i])
                    &&& forall|j: int| 0 <= j < i ==> players.spec_has(#[trigger] list@[j])
                    &&& e == (InvalidReportError::MissingPlayerReference { uuid: list@[i] })
                },
        },
{
    let ghost f = |u: u128| players.spec_resolve(u).simple_spec();
    let mut out: Vec<SimplePlayer> = Vec::new();
    let mut i: usize = 0;
    proof {
        assert(out@ =~= list@.take(0int).map_values(f));
    }
    while i < list.len()
        invariant
            i <= list@.len(),
            out@ == list@.take(i as int).map_values(f),
            forall|j: int| 0 <= j < i ==> players.spec_has(#[trigger] list@[j]),
        decreases list@.len() - i,
    {
        match players.resolve_simple(list[i]) {
            Result::Ok(sp) => {
                out.push(sp);
                proof {
                    assert(out@ =~= list@.take(i + 1).map_values(f));
                }
            },
            Result::Err(e) => {
                return Result::Err(e);
            },
        }
        i = i + 1;
    }
    proof {
        assert(list@.take(i as int) =~= list@);
    }
    Result::Ok(sort_total(out))
}

impl Report {
    /// Processes a raw report into the display-ready one: builds the
    /// catalog, normalizes and merges the damages, normalizes the heals
    /// and events, derives the winners, resolves the teams, and attaches
    /// the aggregates. The first dangling player reference anywhere aborts
    /// the whole transform with `MissingPlayerReference`; no partial
    /// report is ever returned.
    #[verifier::spinoff_prover]
    #[verifier::rlimit(100)]
    pub fn from_raw(raw_report: raw::Report) -> (r: ReportResult<Report>)
        ensures
            match r {
                Result::Ok(rep) => exists|cat: Catalog, sd: Seq<raw::Damage>|
                    catalog_matches_raw(
                        cat,
                        raw_report.players@,
                        raw_report.teams@,
                        raw_report.settings.players,
                    ) && #[trigger] report_fields_ok(rep, raw_report, cat, sd),
                Result::Err(e) => exists|cat: Catalog|
                    #[trigger] catalog_matches_raw(
                        cat,
                        raw_report.players@,
                        raw_report.teams@,
                        raw_report.settings.players,
                    ) && match e {
                        InvalidReportError::MissingPlayerReference { uuid } => !cat.spec_has(uuid)
                            && referenced_in_raw(uuid, raw_report),
                        InvalidReportError::Unknown => false,
                    } && first_error_ok(raw_report, cat, e),
            },
    {
        let raw::Report {
            match_uuid,
            title,
            date,
            minecraft,
            settings,
            players: raw_players,
            teams: raw_teams,
            winners: raw_winners,
            damages: raw_damages,
            heals: raw_heals,
            events: raw_events,
        } = raw_report;
        let catalog = Catalog::build(
            raw_players,
            &raw_teams,
            crate::team::default_team_color(),
            &settings.players,
        );
        let ghost gcat = catalog;
        let sorted_damages = sort_total(raw_damages);
        let ghost sd = sorted_damages@;
        let damages = match Damage::from_raw_vec(sorted_damages, &catalog, date) {
            Result::Ok(ds) => ds,
            Result::Err(e) => {
                proof {
                    assert(catalog_matches_raw(
                        gcat,
                        raw_report.players@,
                        raw_report.teams@,
                        raw_report.settings.players,
                    ));
                    lemma_damage_phase_err(raw_report, gcat, sd, e);
                }
                return Result::Err(e);
            },
        };
        proof {
            lemma_damage_phase_ok(raw_report, gcat, sd);
        }
        let heals = match Heal::from_raw_vec(raw_heals, &catalog, date) {
            Result::Ok(hs) => hs,
            Result::Err(e) => {
                proof {
                    assert(catalog_matches_raw(
                        gcat,
                        raw_report.players@,
                        raw_report.teams@,
                        raw_report.settings.players,
                    ));
                    lemma_heal_phase_err(raw_report, gcat, e);
                }
                return Result::Err(e);
            },
        };
        proof {
            assert(!some_heal_dangles(raw_report.heals@, gcat));
        }
        let winners = match raw_winners {
            Option::Some(ws) => {
                if ws.len() > 0 {
                    match resolve_winners(&ws, &catalog) {
                        Result::Ok(w) => w,
                        Result::Err(e) => {
                            proof {
                                assert(catalog_matches_raw(
                                    gcat,
                                    raw_report.players@,
                                    raw_report.teams@,
                                    raw_report.settings.players,
                                ));
                                assert(raw_report.winners == Option::Some(ws));
                                lemma_winner_phase_err(raw_report, gcat, ws, e);
                            }
                            return Result::Err(e);
                        },
                    }
                } else {
                    extract_winners(&catalog, &damages)
                }
            },
            Option::None => extract_winners(&catalog, &damages),
        };
        proof {
            assert(!some_winner_dangles(raw_report.winners, gcat));
        }
        let aggregates = Aggregate::from_raw(&catalog, &damages, &heals, date, &settings.players);
        let teams = match Team::from_raw_vec(raw_teams, &catalog) {
            Result::Ok(ts) => ts,
            Result::Err(e) => {
                proof {
                    assert(catalog_matches_raw(
                        gcat,
                        raw_report.players@,
                        raw_report.teams@,
                        raw_report.settings.players,
                    ));
                    lemma_team_phase_err(raw_report, gcat, e);
                }
                return Result::Err(e);
            },
        };
        let events = Event::from_raw_vec(raw_events, date);
        let mut has_players_without_team = false;
        let mut p: usize = 0;
        proof {
            assert(!(exists|i: int|
                0 <= i < gcat.players@.take(0int).len() && (#[trigger] gcat.players@.take(
                    0int,
                )[i]).team is None));
        }
        while p < catalog.players.len()
            invariant
                p <= catalog.players@.len(),
                catalog == gcat,
                has_players_without_team == exists|i: int|
                    0 <= i < p && (#[trigger] gcat.players@[i]).team is None,
            decreases catalog.players@.len() - p,
        {
            if catalog.players[p].team.is_none() {
                has_players_without_team = true;
            }
            p = p + 1;
        }
        let players = sort_total(catalog.players);
        let rep = Report {
            match_uuid,
            title,
            date,
            minecraft,
            settings,
            players,
            teams,
            winners,
            damages,
            heals,
            events,
            aggregates,
            has_players_without_team,
        };
        proof {
            assert(catalog_matches_raw(
                gcat,
                raw_report.players@,
                raw_report.teams@,
                raw_report.settings.players,
            ));
            assert(report_fields_ok(rep, raw_report, gcat, sd));
        }
        Result::Ok(rep)
    }
}

/// Round trip: every damagee projection embedded in the processed damages
/// is exactly the projection of the catalog entry its identifier resolves
/// to — the merge pass reorders and coalesces damages but never alters a
/// resolved player reference.
pub proof fn lemma_damagee_projections_round_trip(
    rep: Report,
    raw_report: raw::Report,
    cat: Catalog,
    sd: Seq<raw::Damage>,
    m: int,
)
    requires
        catalog_matches_raw(
            cat,
            raw_report.players@,
            raw_report.teams@,
            raw_report.settings.players,
        ),
        report_fields_ok(rep, raw_report, cat, sd),
        0 <= m < rep.damages@.len(),
    ensures
        cat.spec_has(rep.damages@[m].damagee.uuid),
        rep.damages@[m].damagee == cat.spec_resolve(rep.damages@[m].damagee.uuid).simple_spec(),
        match rep.damages@[m].cause {
            crate::damage::DamageCause::Player(c) => cat.spec_has(c.player.uuid) && c.player
                == cat.spec_resolve(c.player.uuid).simple_spec(),
            _ => true,
        },
{
    let conv = sd.map_values(|rd: raw::Damage| damage_from_raw_spec(rd, cat, raw_report.date));
    let d = rep.damages@[m];
    assert(rep.damages@.to_multiset().contains(d));
    assert(merge_result(conv).to_multiset().contains(d));
    assert(merge_result(conv).contains(d));
    let q = choose|q: int| 0 <= q < merge_result(conv).len() && merge_result(conv)[q] == d;
    crate::damage::lemma_merge_keeps_damagees(conv);
    let i = choose|i: int|
        0 <= i < conv.len() && (#[trigger] merge_result(conv)[q]).damagee == conv[i].damagee
            && merge_result(conv)[q].cause == conv[i].cause;
    assert(conv[i] == damage_from_raw_spec(sd[i], cat, raw_report.date));
    assert(damage_resolves(sd[i], cat));
    assert(d.damagee == cat.spec_resolve(sd[i].damagee).simple_spec());
    lemma_resolved_uuid(cat, sd[i].damagee);
    assert(d.damagee.uuid == sd[i].damagee);
    assert(d.cause == crate::damage::cause_from_raw_spec(sd[i].cause, cat));
    match sd[i].cause {
        raw::DamageCause::Player(pdc) => {
            assert(cat.spec_has(pdc.player));
            lemma_resolved_uuid(cat, pdc.player);
        },
        _ => {},
    }
}

/// A resolved catalog entry carries the identifier it was resolved by.
proof fn lemma_resolved_uuid(cat: Catalog, uuid: u128)
    requires
        cat.spec_has(uuid),
    ensures
        cat.spec_resolve(uuid).uuid == uuid,
{
    let j = cat.index_of(uuid);
    assert(cat.players@[j].uuid == uuid);
}

/// Round trip for the winners: every winner projection is exactly the
/// projection of the catalog entry its identifier resolves to, whether the
/// list came from the explicit raw winners or from the survivors.
pub proof fn lemma_winner_projections_round_trip(
    rep: Report,
    raw_report: raw::Report,
    cat: Catalog,
    sd: Seq<raw::Damage>,
    m: int,
)
    requires
        catalog_matches_raw(
            cat,
            raw_report.players@,
            raw_report.teams@,
            raw_report.settings.players,
        ),
        report_fields_ok(rep, raw_report, cat, sd),
        0 <= m < rep.winners@.len(),
    ensures
        cat.spec_has(rep.winners@[m].uuid),
        rep.winners@[m] == cat.spec_resolve(rep.winners@[m].uuid).simple_spec(),
{
    let w = rep.winners@[m];
    assert(rep.winners@.to_multiset().contains(w));
    let from_survivors = match raw_report.winners {
        Option::Some(list) => list@.len() == 0,
        Option::None => true,
    };
    if from_survivors {
        let sv = survivors_spec(cat, rep.damages@);
        assert(sv.to_multiset().contains(w));
        assert(sv.contains(w));
        let q = choose|q: int| 0 <= q < sv.len() && sv[q] == w;
        let fp = cat.players@.filter(|p: Player| is_survivor(p.uuid, rep.damages@));
        assert(w == fp[q].simple_spec());
        lemma_filter_contained(cat.players@, |p: Player| is_survivor(p.uuid, rep.damages@));
        assert(cat.players@.contains(fp[q]));
        let j = choose|j: int| 0 <= j < cat.players@.len() && cat.players@[j] == fp[q];
        assert(cat.spec_has(cat.players@[j].uuid));
        assert(cat.spec_resolve(cat.players@[j].uuid) == cat.players@[j]) by {
            let j2 = cat.index_of(cat.players@[j].uuid);
            assert(cat.players@[j2].uuid == cat.players@[j].uuid);
            if j2 != j {
                assert(false);
            }
        }
        assert(w.uuid == cat.players@[j].uuid);
    } else {
        match raw_report.winners {
            Option::Some(list) => {
                let mapped = list@.map_values(|u: u128| cat.spec_resolve(u).simple_spec());
                assert(mapped.to_multiset().contains(w));
                assert(mapped.contains(w));
                let q = choose|q: int| 0 <= q < mapped.len() && mapped[q] == w;
                assert(w == cat.spec_resolve(list@[q]).simple_spec());
                assert(cat.spec_has(list@[q]));
                lemma_resolved_uuid(cat, list@[q]);
                assert(w.uuid == list@[q]);
            },
            Option::None => {
                assert(false);
            },
        }
    }
}

/// Round trip for the heals: every healed projection is exactly the
/// projection of the catalog entry its identifier resolves to.
pub proof fn lemma_healed_projections_round_trip(
    rep: Report,
    raw_report: raw::Report,
    cat: Catalog,
    sd: Seq<raw::Damage>,
    m: int,
)
    requires
        catalog_matches_raw(
            cat,
            raw_report.players@,
            raw_report.teams@,
            raw_report.settings.players,
        ),
        report_fields_ok(rep, raw_report, cat, sd),
        0 <= m < rep.heals@.len(),
    ensures
        cat.spec_has(rep.heals@[m].healed.uuid),
        rep.heals@[m].healed == cat.spec_resolve(rep.heals@[m].healed.uuid).simple_spec(),
{
    let h = rep.heals@[m];
    let mapped = raw_report.heals@.map_values(
        |rh: raw::Heal| heal_from_raw_spec(rh, cat, raw_report.date),
    );
    assert(rep.heals@.to_multiset().contains(h));
    assert(mapped.to_multiset().contains(h));
    assert(mapped.contains(h));
    let q = choose|q: int| 0 <= q < mapped.len() && mapped[q] == h;
    assert(h == heal_from_raw_spec(raw_report.heals@[q], cat, raw_report.date));
    assert(cat.spec_has(raw_report.heals@[q].healed));
    lemma_resolved_uuid(cat, raw_report.heals@[q].healed);
    assert(h.healed.uuid == raw_report.heals@[q].healed);
}

/// The identifier a failing damage reports: the damagee when it dangles,
/// else the player of the player cause.
pub open spec fn damage_error_uuid(rd: raw::Damage, players: Catalog) -> u128 {
    if !players.spec_has(rd.damagee) {
        rd.damagee
    } else {
        match rd.cause {
            raw::DamageCause::Player(p) => p.player,
            _ => arbitrary(),
        }
    }
}

} // verus!
