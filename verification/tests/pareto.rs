use system_solver::solver::pareto::{max_floor_income, FloorChoice, FrontierKind};

#[test]
fn floor_dp_allows_compensation_across_planets() {
    let choices = vec![
        vec![FloorChoice::colonized(100, 10)],
        vec![FloorChoice::colonized(80, 0)],
    ];
    assert_eq!(max_floor_income(&choices, 5, 20), Some(180));
}

#[test]
fn floor_dp_skip_option_excludes_uncolonized_planets_from_average() {
    let choices = vec![
        vec![FloorChoice::skip(), FloorChoice::colonized(100, 0)],
        vec![FloorChoice::colonized(10, 5)],
    ];
    assert_eq!(max_floor_income(&choices, 5, 20), Some(10));
}

#[test]
fn floor_dp_existing_colonies_are_mandatory_when_no_skip_is_present() {
    let choices = vec![
        vec![FloorChoice::colonized(100, 0)],
        vec![FloorChoice::colonized(10, 10)],
    ];
    assert_eq!(max_floor_income(&choices, 5, 20), Some(110));
}

#[test]
fn floor_dp_reports_infeasible_floor() {
    let choices = vec![
        vec![FloorChoice::colonized(100, 4)],
        vec![FloorChoice::colonized(10, 4)],
    ];
    assert_eq!(max_floor_income(&choices, 5, 20), None);
}

#[test]
fn floor_dp_handles_defense_overcredit_and_top_bucket() {
    let choices = vec![
        vec![FloorChoice::colonized(100, 1)],
        vec![FloorChoice::colonized(50, i32::MAX / 4)],
    ];
    assert_eq!(max_floor_income(&choices, 1, 8), Some(150));
    assert_eq!(max_floor_income(&choices, 4, 8), Some(150));
}

#[test]
fn floor_dp_with_no_planets_meets_only_non_positive_floors() {
    let choices: Vec<Vec<FloorChoice>> = Vec::new();
    assert_eq!(max_floor_income(&choices, 0, 8), Some(0));
    assert_eq!(max_floor_income(&choices, 3, 8), None);
}

#[test]
fn floor_dp_positive_floor_needs_a_colony() {
    // Skipping everything leaves zero slack but no colony.
    let choices = vec![vec![FloorChoice::skip()], vec![FloorChoice::skip()]];
    assert_eq!(max_floor_income(&choices, 1, 8), None);
    assert_eq!(max_floor_income(&choices, 0, 8), Some(0));
}

#[test]
fn floor_dp_slack_cap_limits_carried_surplus() {
    // The surplus of the first planet (+10) is capped at 2, so it cannot
    // carry a second planet that is 3 below the floor.
    let choices = vec![
        vec![FloorChoice::colonized(5, 15)],
        vec![FloorChoice::colonized(7, 2)],
    ];
    assert_eq!(max_floor_income(&choices, 5, 2), None);
    assert_eq!(max_floor_income(&choices, 5, 3), Some(12));
}

#[test]
fn floor_dp_picks_the_richest_feasible_menu_entry() {
    let choices = vec![
        vec![FloorChoice::colonized(300, 2), FloorChoice::colonized(200, 6)],
        vec![FloorChoice::colonized(50, 5), FloorChoice::skip()],
    ];
    // 300 at metric 2 would need +3 slack from elsewhere; only 200 works.
    assert_eq!(max_floor_income(&choices, 5, 20), Some(250));
}

#[test]
fn floor_choice_negative_income_counts_as_zero() {
    let choices = vec![vec![FloorChoice::colonized(-40, 9)]];
    assert_eq!(max_floor_income(&choices, 5, 20), Some(0));
}

#[test]
fn frontier_kind_names() {
    assert_eq!(FrontierKind::Stability.as_str(), "stability");
    assert_eq!(FrontierKind::Defense.as_str(), "defense");
}
