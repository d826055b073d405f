use std::path::PathBuf;
use std::time::{Duration, UNIX_EPOCH};

use system_solver::extract::db::SaveRow;
use system_solver::extract::model::SaveInfo;
use system_solver::rank::RankScorer;
use system_solver::solver::goal::Metric;
use system_solver::solver::SolverSettings;
use system_solver::text::{is_whitespace, title_case, u64_to_string};
use system_solver::tui::app::{estimate_rank_cost, format_duration, format_system_time, merge_saves, SolveMode};
use system_solver::tui::config::{
    default_include_industry_upgrades, default_rank_by_score_per_planet, default_rank_scorer,
};
use system_solver::tui::screens::rank::scorer_name;
use system_solver::tui::screens::solve::{parse_i32, parse_u32};

#[test]
fn title_case_capitalizes_each_word() {
    assert_eq!(title_case("population & infrastructure"), "Population & Infrastructure");
    assert_eq!(title_case("tech-mining"), "Tech-mining");
    assert_eq!(title_case("  heavy \t  industry  "), "Heavy Industry");
    assert_eq!(title_case(""), "");
    assert_eq!(title_case("   "), "");
    assert_eq!(title_case("über alles"), "Über Alles");
    assert_eq!(title_case("a"), "A");
}

#[test]
fn whitespace_follows_unicode() {
    assert!(is_whitespace(' '));
    assert!(is_whitespace('\n'));
    assert!(is_whitespace('\u{3000}'));
    assert!(!is_whitespace('x'));
    assert!(!is_whitespace('\u{200B}'));
}

#[test]
fn decimal_text_of_integers() {
    assert_eq!(u64_to_string(0), "0");
    assert_eq!(u64_to_string(907), "907");
    assert_eq!(u64_to_string(u64::MAX), "18446744073709551615");
}

#[test]
fn parse_i32_accepts_what_str_parse_accepts() {
    let mut v = 7;
    assert!(parse_i32("42", &mut v));
    assert_eq!(v, 42);
    assert!(parse_i32("-2147483648", &mut v));
    assert_eq!(v, i32::MIN);
    assert!(parse_i32("+5", &mut v));
    assert_eq!(v, 5);
    assert!(parse_i32("-0", &mut v));
    assert_eq!(v, 0);
    v = 9;
    for bad in ["", "+", "-", "2147483648", "-2147483649", " 1", "1.5", "1e3", "--1"] {
        assert!(!parse_i32(bad, &mut v), "{bad:?} must be refused");
        assert_eq!(v, 9);
    }
}

#[test]
fn parse_u32_refuses_signs_it_cannot_hold() {
    let mut v = 3;
    assert!(parse_u32("4294967295", &mut v));
    assert_eq!(v, u32::MAX);
    assert!(parse_u32("+12", &mut v));
    assert_eq!(v, 12);
    for bad in ["-1", "-0", "4294967296", "", "x"] {
        assert!(!parse_u32(bad, &mut v), "{bad:?} must be refused");
        assert_eq!(v, 12);
    }
}

#[test]
fn durations_show_their_two_largest_units() {
    assert_eq!(format_duration(Duration::from_secs(0)), "0s");
    assert_eq!(format_duration(Duration::from_millis(59_999)), "59s");
    assert_eq!(format_duration(Duration::from_secs(65)), "1m5s");
    assert_eq!(format_duration(Duration::from_secs(3599)), "59m59s");
    assert_eq!(format_duration(Duration::from_secs(3600)), "1h0m");
    assert_eq!(format_duration(Duration::from_secs(3661)), "1h1m");
    assert_eq!(format_duration(Duration::from_secs(90_000)), "25h0m");
}

#[test]
fn system_time_dates_across_leap_years() {
    let day = |d: u64| UNIX_EPOCH + Duration::from_secs(d * 86_400 + 3_600);
    assert_eq!(format_system_time(day(59)), "1970-03-01");
    assert_eq!(format_system_time(day(10_956)), "1999-12-31");
    assert_eq!(format_system_time(day(11_016)), "2000-02-29");
    assert_eq!(format_system_time(day(11_017)), "2000-03-01");
    assert_eq!(format_system_time(day(19_782)), "2024-02-29");
    assert_eq!(format_system_time(day(47_541)), "2100-03-01");
    assert_eq!(format_system_time(UNIX_EPOCH + Duration::from_secs(86_399)), "1970-01-01");
}

#[test]
fn system_time_before_the_epoch_is_a_dash() {
    assert_eq!(format_system_time(UNIX_EPOCH - Duration::from_secs(1)), "-");
}

#[test]
fn rank_cost_scales_with_the_system_count() {
    assert_eq!(estimate_rank_cost(0, RankScorer::Quick), Duration::ZERO);
    assert_eq!(estimate_rank_cost(1, RankScorer::Template), Duration::from_millis(150));
    assert_eq!(estimate_rank_cost(7, RankScorer::Template), Duration::from_millis(1050));
    assert_eq!(estimate_rank_cost(250, RankScorer::Bound), Duration::from_secs(250));
}

fn disk(name: &str, secs: u64) -> SaveInfo {
    SaveInfo {
        dir_name: name.to_string(),
        character_name: format!("{name}-captain"),
        modified: UNIX_EPOCH + Duration::from_secs(secs),
        path: PathBuf::from(format!("/saves/{name}")),
    }
}

fn extracted(name: &str, at: &str) -> SaveRow {
    SaveRow {
        id: 1,
        dir_name: name.to_string(),
        path: format!("/old/{name}"),
        character_name: format!("{name}-pilot"),
        save_date: "2020-05-05".to_string(),
        game_version: "0.97a".to_string(),
        character_level: 12,
        extracted_at: at.to_string(),
    }
}

#[test]
fn merge_saves_lists_disk_saves_then_extracted_only_saves() {
    let rows = merge_saves(
        vec![disk("alpha", 0), disk("beta", 1_717_200_000)],
        &[
            extracted("gamma", "t1"),
            extracted("beta", "t2"),
            extracted("gamma", "t3"),
            extracted("beta", "t4"),
            extracted("delta", "t5"),
        ],
    );
    assert_eq!(rows.len(), 4);
    assert_eq!(rows[0].dir_name, "alpha");
    assert_eq!(rows[0].character_name, "alpha-captain");
    assert_eq!(rows[0].modified, "1970-01-01");
    assert_eq!(rows[0].extracted_at, None);
    assert_eq!(rows[0].path, PathBuf::from("/saves/alpha"));
    assert_eq!(rows[1].dir_name, "beta");
    assert_eq!(rows[1].modified, "2024-06-01");
    assert_eq!(rows[1].extracted_at.as_deref(), Some("t2"));
    assert_eq!(rows[2].dir_name, "gamma");
    assert_eq!(rows[2].character_name, "gamma-pilot");
    assert_eq!(rows[2].modified, "2020-05-05");
    assert_eq!(rows[2].extracted_at.as_deref(), Some("t1"));
    assert_eq!(rows[2].path, PathBuf::from("/old/gamma"));
    assert_eq!(rows[3].dir_name, "delta");
    assert_eq!(rows[3].extracted_at.as_deref(), Some("t5"));

    assert!(merge_saves(Vec::new(), &[]).is_empty());
}

#[test]
fn display_names_of_modes() {
    assert_eq!(SolveMode::Pareto.as_str(), "Pareto");
    assert_eq!(SolveMode::Goal.as_str(), "Goal");
    assert_eq!(SolveMode::Maximize.as_str(), "Maximize");
    assert_eq!(scorer_name(RankScorer::Quick), "quick");
    assert_eq!(scorer_name(RankScorer::Template), "template");
    assert_eq!(scorer_name(RankScorer::Bound), "bound");
    assert_eq!(Metric::Income.as_str(), "income");
    assert_eq!(Metric::Defense.as_str(), "defense");
    assert_eq!(Metric::Stability.as_str(), "stability");
}

#[test]
fn settings_defaults() {
    let s = SolverSettings::default();
    assert!(s.include_industry_upgrades);
    assert!(!s.allow_parallel_builds);
    assert!(!s.exclude_upgrades());
    let legacy = SolverSettings::legacy(false);
    assert!(legacy.allow_parallel_builds);
    assert!(legacy.exclude_upgrades());
    assert_eq!(default_rank_scorer(), RankScorer::Bound);
    assert!(default_rank_by_score_per_planet());
    assert!(default_include_industry_upgrades());
}
