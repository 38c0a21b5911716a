use hawk_processing::aggregates::aggregate_single_statistic_group;
use hawk_processing::player::{
    classify_statistic, DisplayedStatistics, DistanceUnit, Statistic, StatisticEntry,
};
use hawk_processing::raw;
use hawk_processing::report::Report;
use hawk_processing::settings::default_settings;

fn entry(key: &str, value: u32) -> StatisticEntry {
    StatisticEntry { key: String::from(key), value }
}

fn stat_id(s: &Statistic) -> &str {
    match s {
        Statistic::Duration { id, .. } => id,
        Statistic::Distance { id, .. } => id,
        Statistic::Hearts { id, .. } => id,
        Statistic::Times { id, .. } => id,
        Statistic::Number { id, .. } => id,
    }
}

#[test]
fn duration_key_scales_ticks_to_seconds() {
    let s = classify_statistic(String::from("minecraft.play_one_minute"), 1200);
    assert!(matches!(s, Statistic::Duration { raw: 1200, seconds: 60, .. }));
}

#[test]
fn distance_key_below_a_kilometer_is_meters() {
    let s = classify_statistic(String::from("minecraft.walk_one_cm"), 5000);
    assert!(matches!(
        s,
        Statistic::Distance { raw: 5000, distance_milli: 50000, unit: DistanceUnit::Meters, .. }
    ));
}

#[test]
fn distance_key_from_a_kilometer_is_kilometers() {
    // 25,000,000 cm = 250 km.
    let s = classify_statistic(String::from("minecraft.sprint_one_cm"), 25_000_000);
    assert!(matches!(
        s,
        Statistic::Distance {
            raw: 25_000_000,
            distance_milli: 250_000,
            unit: DistanceUnit::Kilometers,
            ..
        }
    ));
}

#[test]
fn damage_key_scales_to_hearts() {
    // 30 twentieths of a heart = 1.5 hearts.
    let s = classify_statistic(String::from("minecraft.damage_dealt"), 30);
    assert!(matches!(s, Statistic::Hearts { raw: 30, hearts_milli: 1500, .. }));
}

#[test]
fn interaction_key_is_a_times_value() {
    let s = classify_statistic(String::from("minecraft.open_chest"), 9);
    assert!(matches!(s, Statistic::Times { raw: 9, .. }));
}

#[test]
fn unknown_key_is_a_plain_number() {
    let s = classify_statistic(String::from("minecraft.jump"), 11);
    assert!(matches!(s, Statistic::Number { raw: 11, .. }));
}

#[test]
fn custom_namespace_prefix_and_case_are_folded_for_matching() {
    let s = classify_statistic(String::from("minecraft.custom:minecraft.SNEAK_TIME"), 40);
    match &s {
        Statistic::Duration { id, raw, seconds } => {
            // The original key is kept as the id; only the match is canonical.
            assert_eq!(id, "minecraft.custom:minecraft.SNEAK_TIME");
            assert_eq!(*raw, 40);
            assert_eq!(*seconds, 2);
        }
        _ => panic!("expected a duration"),
    }
}

#[test]
fn single_player_aggregation_is_idempotent() {
    // Aggregating one player's statistics equals them with zeros removed.
    let out = aggregate_single_statistic_group(vec![vec![
        entry("minecraft.jump", 3),
        entry("minecraft.drop", 0),
        entry("minecraft.eat", 5),
    ]]);
    assert_eq!(out.len(), 2);
    assert_eq!(out[0].key, "minecraft.eat");
    assert_eq!(out[0].value, 5);
    assert_eq!(out[1].key, "minecraft.jump");
    assert_eq!(out[1].value, 3);
}

#[test]
fn aggregation_sums_counts_of_identical_keys() {
    let out = aggregate_single_statistic_group(vec![
        vec![entry("minecraft.jump", 3), entry("minecraft.eat", 1)],
        vec![entry("minecraft.jump", 4)],
        vec![entry("minecraft.mine", 2)],
    ]);
    assert_eq!(out.len(), 3);
    assert_eq!(out[0].key, "minecraft.eat");
    assert_eq!(out[0].value, 1);
    assert_eq!(out[1].key, "minecraft.jump");
    assert_eq!(out[1].value, 7);
    assert_eq!(out[2].key, "minecraft.mine");
    assert_eq!(out[2].value, 2);
}

#[test]
fn aggregation_drops_keys_whose_total_is_zero() {
    let out = aggregate_single_statistic_group(vec![
        vec![entry("minecraft.a", 0)],
        vec![entry("minecraft.a", 0), entry("minecraft.b", 1)],
    ]);
    assert_eq!(out.len(), 1);
    assert_eq!(out[0].key, "minecraft.b");
}

#[test]
fn whitelist_and_highlight_partition_keys() {
    let stats = vec![entry("minecraft.x", 5), entry("minecraft.y", 7), entry("z", 1)];
    let whitelist = vec![String::from("minecraft.x"), String::from("minecraft.y")];
    let highlight = vec![String::from("minecraft.x")];
    let d = DisplayedStatistics::calculate_displayed(&stats, &whitelist, &highlight);
    assert_eq!(d.visible.len(), 1);
    assert_eq!(stat_id(&d.visible[0]), "minecraft.x");
    assert_eq!(d.hidden.len(), 1);
    assert_eq!(stat_id(&d.hidden[0]), "minecraft.y");
}

#[test]
fn empty_whitelist_keeps_all_and_empty_highlight_shows_all() {
    let stats = vec![entry("minecraft.x", 5), entry("minecraft.y", 0)];
    let d = DisplayedStatistics::calculate_displayed(&stats, &Vec::new(), &Vec::new());
    // The zero-valued entry is still dropped.
    assert_eq!(d.visible.len(), 1);
    assert_eq!(d.hidden.len(), 0);
}

#[test]
fn display_sorts_by_kind_then_name_or_count() {
    let stats = vec![
        entry("minecraft.jump", 10),
        entry("minecraft.drop", 30),
        entry("minecraft.damage_dealt", 20),
        entry("minecraft.walk_one_cm", 100),
        entry("minecraft.play_one_minute", 1200),
        entry("minecraft.sneak_time", 600),
        entry("minecraft.open_chest", 2),
        entry("minecraft.trigger_trapped_chest", 8),
    ];
    let d = DisplayedStatistics::calculate_displayed(&stats, &Vec::new(), &Vec::new());
    let ids: Vec<&str> = d.visible.iter().map(stat_id).collect();
    assert_eq!(
        ids,
        vec![
            // Durations first, ascending by key name.
            "minecraft.play_one_minute",
            "minecraft.sneak_time",
            // Then distances, hearts.
            "minecraft.walk_one_cm",
            "minecraft.damage_dealt",
            // Then interaction counts, descending by count.
            "minecraft.trigger_trapped_chest",
            "minecraft.open_chest",
            // Then plain numbers, descending by count.
            "minecraft.drop",
            "minecraft.jump",
        ]
    );
}

#[test]
fn global_statistics_union_players() {
    let mut p1 = raw::Player {
        uuid: 1,
        name: String::from("Pat"),
        tag_line: None,
        tag_line_secondary: None,
        tag_line_details: None,
        statistics: None,
    };
    p1.statistics = Some(hawk_processing::player::PlayerStatistics {
        generic: Some(vec![entry("minecraft.jump", 3)]),
        used: None,
        mined: None,
        picked_up: None,
    });
    let mut p2 = raw::Player {
        uuid: 2,
        name: String::from("Quinn"),
        tag_line: None,
        tag_line_secondary: None,
        tag_line_details: None,
        statistics: None,
    };
    p2.statistics = Some(hawk_processing::player::PlayerStatistics {
        generic: Some(vec![entry("minecraft.jump", 4), entry("minecraft.drop", 1)]),
        used: None,
        mined: None,
        picked_up: None,
    });
    let rep = Report::from_raw(raw::Report {
        match_uuid: 7,
        title: String::from("t"),
        date: 0,
        minecraft: None,
        settings: default_settings(),
        players: vec![p1, p2],
        teams: Vec::new(),
        winners: None,
        damages: Vec::new(),
        heals: Vec::new(),
        events: Vec::new(),
    })
    .unwrap();
    let generic = rep.aggregates.global_statistics.generic.as_ref().unwrap();
    let mut seen = Vec::new();
    for s in generic.visible.iter() {
        match s {
            Statistic::Number { id, raw } => seen.push((id.clone(), *raw)),
            _ => panic!("expected plain numbers"),
        }
    }
    // Descending by count: jump 3+4=7 first, then drop 1.
    assert_eq!(seen, vec![(String::from("minecraft.jump"), 7), (String::from("minecraft.drop"), 1)]);
}
