use std::time::Duration;

use system_solver::extract::db::SystemDiscovery;
use system_solver::rank::RankScorer;
use system_solver::tui::app::{estimate_rank_cost, filter_scope, format_system_time, ScopeMode};
use system_solver::tui::config::DiscoveryDefinition;

fn discovery(
    name: &str,
    planet_count: u32,
    surveyed_any: u32,
    surveyed_full: u32,
    is_core: bool,
) -> SystemDiscovery {
    SystemDiscovery {
        system_name: name.to_string(),
        planet_count,
        surveyed_full,
        surveyed_any,
        is_core,
        npc_colonized_planets: 0,
    }
}

#[test]
fn tui_scope_filters_discovery_definition_and_core_worlds() {
    let rows = vec![
        discovery("partial", 3, 1, 0, false),
        discovery("full", 2, 2, 2, false),
        discovery("core", 1, 1, 1, true),
        discovery("hidden", 2, 0, 0, false),
    ];

    let names = filter_scope(
        &rows,
        DiscoveryDefinition::AtLeastOneSurveyed,
        false,
        ScopeMode::Discovered,
    );
    assert_eq!(
        names.into_iter().map(String::as_str).collect::<Vec<_>>(),
        vec!["partial", "full"]
    );

    let names = filter_scope(&rows, DiscoveryDefinition::FullySurveyed, true, ScopeMode::Discovered);
    assert_eq!(
        names.into_iter().map(String::as_str).collect::<Vec<_>>(),
        vec!["full", "core"]
    );

    let names = filter_scope(&rows, DiscoveryDefinition::AtLeastOneSurveyed, false, ScopeMode::All);
    assert_eq!(
        names.into_iter().map(String::as_str).collect::<Vec<_>>(),
        vec!["partial", "full", "hidden"]
    );
}

#[test]
fn tui_rank_cost_estimate_matches_m1_constants() {
    assert_eq!(estimate_rank_cost(3, RankScorer::Quick), Duration::from_secs(30));
    assert_eq!(estimate_rank_cost(3, RankScorer::Bound), Duration::from_secs(3));
    assert_eq!(estimate_rank_cost(10, RankScorer::Template), Duration::from_millis(1500));
}

#[test]
fn tui_format_system_time_renders_utc_date() {
    assert_eq!(format_system_time(std::time::UNIX_EPOCH), "1970-01-01");
    let recent = std::time::UNIX_EPOCH + Duration::from_secs(1_717_200_000);
    assert_eq!(format_system_time(recent), "2024-06-01");
}
