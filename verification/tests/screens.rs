use std::path::PathBuf;

use system_solver::extract::db::SaveRow;
use system_solver::rank::{RankScorer, RankSortMode};
use system_solver::tui::app::SaveListRow;
use system_solver::tui::screens::saves::find_extracted;
use system_solver::tui::screens::settings::setting_value;
use system_solver::solver::goal::Metric;
use system_solver::tui::app::{move_rank_sort_picker, move_scorer_picker, rank_sort_mode, ScopeMode, SolveMode};
use system_solver::tui::screens::rank::cycle_scope;
use system_solver::tui::screens::solve::{
    cycle_metric, cycle_mode, max_floor_field, move_selection, param_labels, MaxFloorField,
};

#[test]
fn scorer_picker_stops_at_both_ends() {
    assert_eq!(move_scorer_picker(RankScorer::Quick, -1), RankScorer::Quick);
    assert_eq!(move_scorer_picker(RankScorer::Quick, 1), RankScorer::Template);
    assert_eq!(move_scorer_picker(RankScorer::Template, 1), RankScorer::Bound);
    assert_eq!(move_scorer_picker(RankScorer::Bound, 1), RankScorer::Bound);
    assert_eq!(move_scorer_picker(RankScorer::Bound, -1), RankScorer::Template);
}

#[test]
fn rank_sort_picker_and_mode() {
    assert!(!move_rank_sort_picker(true, 1));
    assert!(!move_rank_sort_picker(false, 1));
    assert!(move_rank_sort_picker(false, -1));
    assert_eq!(rank_sort_mode(true), RankSortMode::ScorePerPlanet);
    assert_eq!(rank_sort_mode(false), RankSortMode::TotalScore);
}

#[test]
fn scope_needs_spoiler_confirmation() {
    assert_eq!(cycle_scope(ScopeMode::Discovered, false), None);
    assert_eq!(cycle_scope(ScopeMode::Discovered, true), Some(ScopeMode::All));
    assert_eq!(cycle_scope(ScopeMode::All, false), Some(ScopeMode::Discovered));
}

#[test]
fn parameter_rows_follow_the_mode() {
    assert_eq!(
        param_labels(SolveMode::Pareto, Metric::Income),
        vec!["mode", "horizon", "time budget ms", "[Run]"]
    );
    assert_eq!(
        param_labels(SolveMode::Goal, Metric::Income),
        vec!["mode", "income", "stability", "defense", "horizon", "time budget ms", "[Run]"]
    );
    assert_eq!(
        param_labels(SolveMode::Maximize, Metric::Stability),
        vec!["mode", "metric", "income floor", "defense floor", "horizon", "time budget ms", "[Run]"]
    );
}

#[test]
fn floor_fields_skip_the_maximized_metric() {
    assert_eq!(max_floor_field(Metric::Income, 1), None);
    assert_eq!(max_floor_field(Metric::Income, 2), Some(MaxFloorField::Stability));
    assert_eq!(max_floor_field(Metric::Income, 3), Some(MaxFloorField::Defense));
    assert_eq!(max_floor_field(Metric::Defense, 3), Some(MaxFloorField::Stability));
    assert_eq!(max_floor_field(Metric::Stability, 4), None);
    assert_eq!(max_floor_field(Metric::Stability, 0), None);
}

#[test]
fn selection_moves_within_the_rows() {
    assert_eq!(move_selection(0, -1, 5), 0);
    assert_eq!(move_selection(3, -1, 5), 2);
    assert_eq!(move_selection(3, 1, 5), 4);
    assert_eq!(move_selection(4, 1, 5), 4);
    assert_eq!(move_selection(9, 1, 5), 4);
    assert_eq!(move_selection(0, 1, 0), 0);
}

#[test]
fn metric_and_mode_cycles() {
    assert_eq!(cycle_metric(Metric::Income, 1), Metric::Stability);
    assert_eq!(cycle_metric(Metric::Defense, 1), Metric::Income);
    assert_eq!(cycle_metric(Metric::Income, -1), Metric::Income);
    assert_eq!(cycle_metric(Metric::Defense, -1), Metric::Stability);

    assert_eq!(cycle_mode(SolveMode::Pareto, 1, 0, Metric::Income), (SolveMode::Goal, 0));
    assert_eq!(cycle_mode(SolveMode::Goal, 1, 6, Metric::Income), (SolveMode::Maximize, 6));
    assert_eq!(cycle_mode(SolveMode::Maximize, 1, 6, Metric::Income), (SolveMode::Pareto, 3));
    assert_eq!(cycle_mode(SolveMode::Pareto, -1, 2, Metric::Income), (SolveMode::Pareto, 2));
}

fn list_row(name: &str, extracted_at: Option<&str>) -> SaveListRow {
    SaveListRow {
        dir_name: name.to_string(),
        character_name: format!("{name}-captain"),
        modified: "2024-06-01".to_string(),
        extracted_at: extracted_at.map(str::to_string),
        path: PathBuf::from(format!("/saves/{name}")),
    }
}

fn active(name: &str) -> SaveRow {
    SaveRow {
        id: 42,
        dir_name: name.to_string(),
        path: "/db/path".to_string(),
        character_name: "pilot".to_string(),
        save_date: "2020-01-01".to_string(),
        game_version: "0.97a".to_string(),
        character_level: 30,
        extracted_at: "t0".to_string(),
    }
}

#[test]
fn find_extracted_prefers_the_active_save() {
    let saves = vec![list_row("alpha", Some("t1"))];
    let found = find_extracted(&Some(active("alpha")), &saves, "alpha").unwrap();
    assert_eq!(found.id, 42);
    assert_eq!(found.game_version, "0.97a");
}

#[test]
fn find_extracted_rebuilds_from_the_list() {
    let saves = vec![list_row("alpha", None), list_row("beta", Some("t2")), list_row("beta", Some("t3"))];
    let found = find_extracted(&Some(active("alpha")), &saves, "beta").unwrap();
    assert_eq!(found.id, 0);
    assert_eq!(found.dir_name, "beta");
    assert_eq!(found.path, "/saves/beta");
    assert_eq!(found.character_name, "beta-captain");
    assert_eq!(found.save_date, "2024-06-01");
    assert_eq!(found.game_version, "");
    assert_eq!(found.character_level, 0);
    assert_eq!(found.extracted_at, "t2");
    assert!(find_extracted(&None, &saves, "alpha").is_none());
    assert!(find_extracted(&None, &saves, "gamma").is_none());
}

#[test]
fn setting_rows_show_the_edit_in_progress() {
    assert_eq!(setting_value(true, 2, 2, "12", "5".to_string()), "editing: 12_");
    assert_eq!(setting_value(true, 1, 2, "12", "5".to_string()), "5");
    assert_eq!(setting_value(false, 2, 2, "12", "5".to_string()), "5");
}

use system_solver::tui::app::{PlanActionRow, PlanState};
use system_solver::tui::screens::plan::{apply_plan_key, plan_export_text, plan_month_labels, PlanKey};

fn step(month: i32, index: usize, text: &str) -> PlanActionRow {
    PlanActionRow { month, action_index: index, text: text.to_string() }
}

fn sample_plan() -> PlanState {
    PlanState {
        header: "Mia's Star".to_string(),
        actions: Vec::new(),
        rows: vec![step(0, 0, "Colonize A"), step(0, 1, "Build Mining on A"), step(3, 3, "Colonize B")],
        checked: vec![true, false, false],
        selection: 0,
    }
}

#[test]
fn month_labels_mark_where_months_start() {
    let plan = sample_plan();
    assert_eq!(plan_month_labels(&plan.rows), vec!["month 0", "", "month 3"]);
    assert!(plan_month_labels(&[]).is_empty());
}

#[test]
fn plan_export_groups_steps_by_month() {
    let plan = sample_plan();
    assert_eq!(
        plan_export_text(&plan),
        "Mia's Star\n\nmonth 0\n[x] Colonize A\n[ ] Build Mining on A\n\nmonth 3\n[ ] Colonize B\n"
    );
}

#[test]
fn plan_keys_move_tick_and_jump() {
    let mut plan = sample_plan();
    apply_plan_key(&mut plan, PlanKey::Up);
    assert_eq!(plan.selection, 0);
    apply_plan_key(&mut plan, PlanKey::NextUnchecked);
    assert_eq!(plan.selection, 1);
    apply_plan_key(&mut plan, PlanKey::ToggleChecked);
    assert_eq!(plan.checked, vec![true, true, false]);
    apply_plan_key(&mut plan, PlanKey::Down);
    apply_plan_key(&mut plan, PlanKey::Down);
    assert_eq!(plan.selection, 2);
    apply_plan_key(&mut plan, PlanKey::NextUnchecked);
    assert_eq!(plan.selection, 2);
    apply_plan_key(&mut plan, PlanKey::ToggleChecked);
    assert_eq!(plan.checked, vec![true, true, true]);
    apply_plan_key(&mut plan, PlanKey::Up);
    assert_eq!(plan.selection, 1);
}
