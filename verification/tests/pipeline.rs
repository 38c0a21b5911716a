use hawk_processing::errors::InvalidReportError;
use hawk_processing::raw;
use hawk_processing::report::Report;
use hawk_processing::settings::default_settings;
use hawk_processing::catalog::Catalog;

fn player(uuid: u128, name: &str) -> raw::Player {
    raw::Player {
        uuid,
        name: String::from(name),
        tag_line: None,
        tag_line_secondary: None,
        tag_line_details: None,
        statistics: None,
    }
}

fn fall(date: i64, damagee: u128, damage: u16, lethal: bool) -> raw::Damage {
    raw::Damage {
        date,
        cause: raw::DamageCause::Fall,
        damager: None,
        damagee,
        damage,
        lethal,
    }
}

fn player_hit(date: i64, damager: u128, damagee: u128, damage: u16, lethal: bool) -> raw::Damage {
    raw::Damage {
        date,
        cause: raw::DamageCause::Player(raw::PlayerDamageCause { player: damager, weapon: None }),
        damager: Some(damager),
        damagee,
        damage,
        lethal,
    }
}

fn base_report(players: Vec<raw::Player>, damages: Vec<raw::Damage>) -> raw::Report {
    raw::Report {
        match_uuid: 42,
        title: String::from("A match"),
        date: 0,
        minecraft: None,
        settings: default_settings(),
        players,
        teams: Vec::new(),
        winners: None,
        damages,
        heals: Vec::new(),
        events: Vec::new(),
    }
}

#[test]
fn merge_three_consecutive_non_lethal() {
    let rep = Report::from_raw(base_report(
        vec![player(1, "Pat")],
        vec![fall(1, 1, 3, false), fall(2, 1, 4, false), fall(3, 1, 5, false)],
    ))
    .unwrap();
    assert_eq!(rep.damages.len(), 1);
    assert_eq!(rep.damages[0].damage, 12);
    assert!(!rep.damages[0].lethal);
    assert_eq!(rep.damages[0].damagee.uuid, 1);
}

#[test]
fn merge_stops_at_lethal_boundary() {
    let rep = Report::from_raw(base_report(
        vec![player(1, "Pat")],
        vec![fall(1, 1, 3, false), fall(2, 1, 4, true), fall(3, 1, 5, false)],
    ))
    .unwrap();
    assert_eq!(rep.damages.len(), 2);
    assert_eq!(rep.damages[0].damage, 7);
    assert!(rep.damages[0].lethal);
    assert_eq!(rep.damages[1].damage, 5);
    assert!(!rep.damages[1].lethal);
}

#[test]
fn merge_is_keyed_by_damagee() {
    // Interleaved same-cause hits on two players merge independently.
    let rep = Report::from_raw(base_report(
        vec![player(1, "Pat"), player(2, "Quinn")],
        vec![fall(1, 1, 3, false), fall(2, 2, 10, false), fall(3, 1, 4, false), fall(4, 2, 20, false)],
    ))
    .unwrap();
    assert_eq!(rep.damages.len(), 2);
    let to_one: Vec<_> = rep.damages.iter().filter(|d| d.damagee.uuid == 1).collect();
    let to_two: Vec<_> = rep.damages.iter().filter(|d| d.damagee.uuid == 2).collect();
    assert_eq!(to_one.len(), 1);
    assert_eq!(to_one[0].damage, 7);
    assert_eq!(to_two.len(), 1);
    assert_eq!(to_two[0].damage, 30);
}

#[test]
fn different_cause_does_not_merge() {
    let mut report = base_report(
        vec![player(1, "Pat")],
        vec![fall(1, 1, 3, false)],
    );
    report.damages.push(raw::Damage {
        date: 2,
        cause: raw::DamageCause::Lava,
        damager: None,
        damagee: 1,
        damage: 4,
        lethal: false,
    });
    let rep = Report::from_raw(report).unwrap();
    assert_eq!(rep.damages.len(), 2);
}

#[test]
fn fire_tick_folds_into_fire() {
    let mut report = base_report(vec![player(1, "Pat")], Vec::new());
    report.damages.push(raw::Damage {
        date: 1,
        cause: raw::DamageCause::Fire,
        damager: None,
        damagee: 1,
        damage: 2,
        lethal: false,
    });
    report.damages.push(raw::Damage {
        date: 2,
        cause: raw::DamageCause::FireTick,
        damager: None,
        damagee: 1,
        damage: 3,
        lethal: false,
    });
    let rep = Report::from_raw(report).unwrap();
    assert_eq!(rep.damages.len(), 1);
    assert_eq!(rep.damages[0].damage, 5);
    assert!(matches!(rep.damages[0].cause, hawk_processing::damage::DamageCause::Fire));
}

#[test]
fn output_sequences_are_sorted_by_timestamp() {
    let mut report = base_report(
        vec![player(1, "Pat"), player(2, "Quinn")],
        vec![fall(30, 1, 3, false), fall(10, 2, 4, false), fall(20, 1, 5, true)],
    );
    report.heals.push(raw::Heal { date: 9, cause: hawk_processing::heal::HealCause::Natural, healed: 1, heal: 2 });
    report.heals.push(raw::Heal { date: 3, cause: hawk_processing::heal::HealCause::GoldenApple, healed: 2, heal: 4 });
    report.events.push(raw::Event {
        date: 8,
        event_type: hawk_processing::event::EventType::Blue,
        title: String::from("late"),
        description: None,
        icon: hawk_processing::event::EventIcon::Icon { icon_id: String::from("a") },
    });
    report.events.push(raw::Event {
        date: 2,
        event_type: hawk_processing::event::EventType::Red,
        title: String::from("early"),
        description: None,
        icon: hawk_processing::event::EventIcon::Icon { icon_id: String::from("b") },
    });
    let rep = Report::from_raw(report).unwrap();
    for w in rep.damages.windows(2) {
        assert!(w[0].date <= w[1].date);
    }
    for w in rep.heals.windows(2) {
        assert!(w[0].date <= w[1].date);
    }
    for w in rep.events.windows(2) {
        assert!(w[0].date <= w[1].date);
    }
    assert_eq!(rep.events[0].title, "early");
    assert_eq!(rep.events[0].since_beginning, 2);
    assert_eq!(rep.heals[0].heal, 4);
}

#[test]
fn rank_later_death_gets_smaller_rank() {
    // A dies at t=10, B dies at t=20, C survives: C=1, B=2, A=3.
    let rep = Report::from_raw(base_report(
        vec![player(1, "Aria"), player(2, "Blake"), player(3, "Cleo")],
        vec![fall(10, 1, 5, true), fall(20, 2, 5, true)],
    ))
    .unwrap();
    let rank_of = |uuid: u128| {
        rep.aggregates
            .players_damages
            .iter()
            .find(|e| e.uuid == uuid)
            .unwrap()
            .alterations
            .rank
    };
    assert_eq!(rank_of(3), 1);
    assert_eq!(rank_of(2), 2);
    assert_eq!(rank_of(1), 3);
}

#[test]
fn winners_default_to_survivors_sorted_by_name() {
    let rep = Report::from_raw(base_report(
        vec![player(1, "Zoe"), player(2, "Blake"), player(3, "Ann")],
        vec![fall(10, 2, 5, true)],
    ))
    .unwrap();
    assert_eq!(rep.winners.len(), 2);
    assert_eq!(rep.winners[0].name, "Ann");
    assert_eq!(rep.winners[1].name, "Zoe");
}

#[test]
fn explicit_winners_resolved_and_sorted() {
    let mut report = base_report(vec![player(1, "Zoe"), player(2, "Ann")], Vec::new());
    report.winners = Some(vec![1, 2]);
    let rep = Report::from_raw(report).unwrap();
    assert_eq!(rep.winners.len(), 2);
    assert_eq!(rep.winners[0].name, "Ann");
    assert_eq!(rep.winners[1].name, "Zoe");
}

#[test]
fn kills_and_killed_by_and_duration() {
    let rep = Report::from_raw(base_report(
        vec![player(1, "Aria"), player(2, "Blake")],
        vec![player_hit(5, 1, 2, 4, false), player_hit(12, 1, 2, 6, true), fall(30, 1, 1, false)],
    ))
    .unwrap();
    let of = |uuid: u128| {
        &rep.aggregates
            .players_damages
            .iter()
            .find(|e| e.uuid == uuid)
            .unwrap()
            .alterations
    };
    let b = of(2);
    assert_eq!(b.kills.len(), 0);
    assert!(matches!(
        &b.killed_by,
        Some(hawk_processing::damage::DamageCause::Player(c)) if c.player.uuid == 1
    ));
    // The two same-cause hits merged into one damage keeping the earlier
    // timestamp, so Blake's death is dated at the start of that run.
    assert_eq!(b.game_duration, 5);
    assert_eq!(b.damages_taken_total, 10);
    let a = of(1);
    assert_eq!(a.kills.len(), 1);
    assert_eq!(a.kills[0].uuid, 2);
    assert_eq!(a.damages_caused_total, 10);
    // Aria survived: the duration runs to the last damage of the match.
    assert_eq!(a.game_duration, 30);
}

#[test]
fn environmental_damages_are_bucketed() {
    let mut report = base_report(
        vec![player(1, "Pat"), player(2, "Quinn")],
        vec![fall(1, 1, 5, false), player_hit(2, 2, 1, 3, false)],
    );
    report.damages.push(raw::Damage {
        date: 3,
        cause: raw::DamageCause::Entity(hawk_processing::damage::EntityDamageCause {
            entity: String::from("zombie"),
            weapon: None,
        }),
        damager: None,
        damagee: 1,
        damage: 7,
        lethal: false,
    });
    let rep = Report::from_raw(report).unwrap();
    let env = &rep.aggregates.environmental_damages;
    assert_eq!(env.entities.len(), 1);
    assert_eq!(env.entities[0].key, "zombie");
    assert_eq!(env.entities[0].value, 7);
    assert_eq!(env.environment.len(), 1);
    assert_eq!(env.environment[0].key, "fall");
    assert_eq!(env.environment[0].value, 5);
}

#[test]
fn simple_player_projection_round_trips() {
    let mut report = base_report(vec![player(1, "Aria"), player(2, "Blake")], vec![fall(5, 2, 9, true)]);
    report.teams.push(raw::Team {
        name: String::from("Reds"),
        color: hawk_processing::team::TeamColor::Red,
        players: vec![1],
    });
    let rep = Report::from_raw(report).unwrap();
    // The catalog entry for Aria, as listed in the processed player list.
    let aria = rep.players.iter().find(|p| p.uuid == 1).unwrap();
    assert_eq!(aria.color, hawk_processing::team::TeamColor::Red);
    assert_eq!(aria.team.as_deref(), Some("Reds"));
    // Winner projection (Aria survives) matches the catalog entry exactly.
    assert_eq!(rep.winners.len(), 1);
    let w = &rep.winners[0];
    assert_eq!(w.uuid, aria.uuid);
    assert_eq!(w.name, aria.name);
    assert_eq!(w.color, aria.color);
    assert_eq!(w.team, aria.team);
    // Damagee projection (Blake, no team) matches its catalog entry.
    let blake = rep.players.iter().find(|p| p.uuid == 2).unwrap();
    let d = &rep.damages[0].damagee;
    assert_eq!(d.uuid, blake.uuid);
    assert_eq!(d.name, blake.name);
    assert_eq!(d.color, blake.color);
    assert_eq!(d.team, blake.team);
    // Team membership projection matches too.
    assert_eq!(rep.teams.len(), 1);
    assert_eq!(rep.teams[0].players[0].name, aria.name);
    assert!(rep.has_players_without_team);
}

#[test]
fn broken_damagee_reference_fails() {
    let r = Report::from_raw(base_report(vec![player(1, "Pat")], vec![fall(1, 99, 3, false)]));
    assert_eq!(r.err().unwrap(), InvalidReportError::MissingPlayerReference { uuid: 99 });
}

#[test]
fn broken_damage_cause_reference_fails() {
    let r = Report::from_raw(base_report(
        vec![player(1, "Pat")],
        vec![player_hit(1, 77, 1, 3, false)],
    ));
    assert_eq!(r.err().unwrap(), InvalidReportError::MissingPlayerReference { uuid: 77 });
}

#[test]
fn broken_healed_reference_fails() {
    let mut report = base_report(vec![player(1, "Pat")], Vec::new());
    report.heals.push(raw::Heal {
        date: 1,
        cause: hawk_processing::heal::HealCause::Natural,
        healed: 55,
        heal: 2,
    });
    let r = Report::from_raw(report);
    assert_eq!(r.err().unwrap(), InvalidReportError::MissingPlayerReference { uuid: 55 });
}

#[test]
fn broken_winner_reference_fails() {
    let mut report = base_report(vec![player(1, "Pat")], Vec::new());
    report.winners = Some(vec![44]);
    let r = Report::from_raw(report);
    assert_eq!(r.err().unwrap(), InvalidReportError::MissingPlayerReference { uuid: 44 });
}

#[test]
fn broken_team_member_reference_fails() {
    let mut report = base_report(vec![player(1, "Pat")], Vec::new());
    report.teams.push(raw::Team {
        name: String::from("Reds"),
        color: hawk_processing::team::TeamColor::Red,
        players: vec![1, 33],
    });
    let r = Report::from_raw(report);
    assert_eq!(r.err().unwrap(), InvalidReportError::MissingPlayerReference { uuid: 33 });
}

#[test]
fn empty_report_processes() {
    let rep = Report::from_raw(base_report(Vec::new(), Vec::new())).unwrap();
    assert_eq!(rep.match_uuid, 42);
    assert_eq!(rep.title, "A match");
    assert!(rep.players.is_empty());
    assert!(rep.winners.is_empty());
    assert!(rep.damages.is_empty());
    assert!(rep.heals.is_empty());
    assert!(rep.events.is_empty());
    assert!(!rep.has_players_without_team);
}

#[test]
fn since_clamps_negative_spans_to_zero() {
    assert_eq!(hawk_processing::report::since(10, 4), 6);
    assert_eq!(hawk_processing::report::since(4, 10), 0);
    assert_eq!(hawk_processing::report::since(5, 5), 0);
}

#[test]
fn resolve_succeeds_exactly_on_catalog_ids() {
    let settings = default_settings();
    let cat = Catalog::build(
        vec![player(1, "Pat"), player(2, "Quinn")],
        &Vec::new(),
        hawk_processing::team::default_team_color(),
        &settings.players,
    );
    assert_eq!(cat.resolve(1).unwrap().name, "Pat");
    assert_eq!(cat.resolve(2).unwrap().name, "Quinn");
    assert_eq!(
        cat.resolve(3).err().unwrap(),
        InvalidReportError::MissingPlayerReference { uuid: 3 }
    );
}

#[test]
fn default_settings_shape() {
    let s = default_settings();
    assert!(s.date && s.players_count && s.winners);
    assert!(s.summary.enabled && s.damages.enabled && s.players.enabled);
    assert!(!s.players.used);
    assert!(s.players.mined && s.players.picked_up);
    assert!(s.players.statistics_whitelist.is_empty());
    assert!(s.players.statistics_highlight.is_empty());
    assert!(s.generator.is_none());
}

#[test]
fn missing_tag_lines_become_empty_strings() {
    let rep = Report::from_raw(base_report(vec![player(1, "Pat")], Vec::new())).unwrap();
    assert_eq!(rep.players[0].tag_line, "");
    assert_eq!(rep.players[0].tag_line_secondary, "");
    assert_eq!(rep.players[0].tag_line_details, "");
}

#[test]
fn kept_tag_lines_are_passed_through() {
    let mut p = player(1, "Pat");
    p.tag_line = Some(String::from("one"));
    p.tag_line_secondary = Some(String::from("two"));
    let rep = Report::from_raw(base_report(vec![p], Vec::new())).unwrap();
    assert_eq!(rep.players[0].tag_line, "one");
    assert_eq!(rep.players[0].tag_line_secondary, "two");
    assert_eq!(rep.players[0].tag_line_details, "");
}

#[test]
fn repeated_player_identifier_keeps_last_occurrence() {
    let rep = Report::from_raw(base_report(
        vec![player(1, "Old"), player(1, "New")],
        Vec::new(),
    ))
    .unwrap();
    assert_eq!(rep.players.len(), 1);
    assert_eq!(rep.players[0].name, "New");
}

#[test]
fn used_statistics_stay_hidden_under_default_settings() {
    let mut p = player(1, "Pat");
    p.statistics = Some(hawk_processing::player::PlayerStatistics {
        generic: Some(vec![hawk_processing::player::StatisticEntry {
            key: String::from("minecraft.jump"),
            value: 2,
        }]),
        used: Some(vec![hawk_processing::player::StatisticEntry {
            key: String::from("minecraft.used_thing"),
            value: 5,
        }]),
        mined: None,
        picked_up: None,
    });
    let rep = Report::from_raw(base_report(vec![p], Vec::new())).unwrap();
    let shown = rep.players[0].displayed_statistics.as_ref().unwrap();
    // The generic group is shaped; the "used" group is disabled by default.
    assert!(shown.generic.is_some());
    assert!(shown.used.is_none());
    assert!(shown.mined.is_none());
    assert_eq!(shown.generic.as_ref().unwrap().visible.len(), 1);
}

#[test]
fn last_team_wins_color_and_first_team_wins_name() {
    let mut report = base_report(vec![player(1, "Pat")], Vec::new());
    report.teams.push(raw::Team {
        name: String::from("First"),
        color: hawk_processing::team::TeamColor::Blue,
        players: vec![1],
    });
    report.teams.push(raw::Team {
        name: String::from("Second"),
        color: hawk_processing::team::TeamColor::Red,
        players: vec![1],
    });
    let rep = Report::from_raw(report).unwrap();
    assert_eq!(rep.players[0].color, hawk_processing::team::TeamColor::Red);
    assert_eq!(rep.players[0].team.as_deref(), Some("First"));
}

#[test]
fn minecraft_version_and_generator_are_echoed() {
    let mut report = base_report(vec![player(1, "Pat")], Vec::new());
    report.minecraft = Some(String::from("1.16.5"));
    report.settings.generator = Some(hawk_processing::settings::SettingsGenerator {
        name: String::from("logger"),
        link: Some(String::from("https://example.invalid/logger")),
    });
    let rep = Report::from_raw(report).unwrap();
    assert_eq!(rep.minecraft.as_deref(), Some("1.16.5"));
    let generator = rep.settings.generator.as_ref().unwrap();
    assert_eq!(generator.name, "logger");
    assert_eq!(generator.link.as_deref(), Some("https://example.invalid/logger"));
}

#[test]
fn per_player_alteration_lists_are_sorted_by_timestamp() {
    let mut report = base_report(
        vec![player(1, "Aria"), player(2, "Blake")],
        vec![
            player_hit(40, 1, 2, 1, false),
            fall(10, 1, 2, false),
            fall(30, 2, 3, true),
            fall(20, 1, 4, false),
        ],
    );
    report.heals.push(raw::Heal {
        date: 25,
        cause: hawk_processing::heal::HealCause::Natural,
        healed: 1,
        heal: 2,
    });
    report.heals.push(raw::Heal {
        date: 5,
        cause: hawk_processing::heal::HealCause::GoldenApple,
        healed: 1,
        heal: 1,
    });
    let rep = Report::from_raw(report).unwrap();
    for e in rep.aggregates.players_damages.iter() {
        for w in e.alterations.damages_taken.windows(2) {
            assert!(w[0].date <= w[1].date);
        }
        for w in e.alterations.damages_caused.windows(2) {
            assert!(w[0].date <= w[1].date);
        }
        for w in e.alterations.heals.windows(2) {
            assert!(w[0].date <= w[1].date);
        }
    }
}
