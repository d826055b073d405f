use std::collections::hash_map::DefaultHasher;
use std::collections::{HashMap, HashSet};
use std::hash::{Hash, Hasher};

use system_solver::constants::{ColonyItem, FacilityType};
use system_solver::solver::astar::{
    action_cost, bound_cutoff, deepening_step, merge_child, time_exceeded, AStarSearchResult,
};
use system_solver::solver::climb::{
    climb_out_of_budget, popped_move, rescored_move, ClimbCounters, PoppedMove, QueuedMove,
};
use system_solver::solver::colony::{ColonyState, FacilityState, PlanetState};
use system_solver::solver::decomp::{continue_seeding, seed_drop_one, MoveKey, SearchContext, SystemFacts, SystemPlan};
use system_solver::solver::reserves::Reserves;
use system_solver::solver::state::{get_action_sequence_hash, Action};

fn planet(has_colony: bool) -> PlanetState {
    PlanetState { has_colony, free_port: false, hazard_pay: false, alpha_admin: false, facilities: Vec::new() }
}

fn colony(sp: u32, cores: u32) -> ColonyState {
    let mut planets = HashMap::new();
    planets.insert(7u64, planet(true));
    planets.insert(9u64, planet(false));
    ColonyState::new(Reserves::new(sp, cores), planets, false)
}

fn facility(c: &ColonyState, h: u64, ft: FacilityType) -> Option<FacilityState> {
    c.planets[&h].facilities.iter().copied().find(|f| f.kind == ft)
}

#[test]
fn improvements_cost_two_then_four_and_undo_refunds_them() {
    let mut c = colony(10, 0);
    c.apply_action(&Action::AddFacility(7, FacilityType::Mining));
    c.apply_action(&Action::AddFacility(7, FacilityType::Refining));
    c.apply_action(&Action::AddImprovement(7, FacilityType::Mining));
    assert_eq!(c.reserves.story_points(), 8);
    c.apply_action(&Action::AddImprovement(7, FacilityType::Refining));
    assert_eq!(c.reserves.story_points(), 4);
    assert!(facility(&c, 7, FacilityType::Refining).unwrap().improved);

    c.undo_last_action();
    assert_eq!(c.reserves.story_points(), 8);
    assert!(!facility(&c, 7, FacilityType::Refining).unwrap().improved);
    c.undo_last_action();
    assert_eq!(c.reserves.story_points(), 10);
    assert!(!facility(&c, 7, FacilityType::Mining).unwrap().improved);
    assert_eq!(c.action_log.len(), 2);
}

#[test]
fn undo_walks_a_path_back_to_the_start() {
    let mut c = colony(5, 2);
    c.reserves.add_colony_item(ColonyItem::MantleBore);
    let path = vec![
        Action::Colonize(9),
        Action::AddFacility(9, FacilityType::Mining),
        Action::AddAlphaCore(9, FacilityType::Mining),
        Action::InstallItem(9, FacilityType::Mining, ColonyItem::MantleBore),
        Action::SetFreePort(9, true),
        Action::SetHazardPay(7, true),
        Action::UpgradeAdmin(7),
        Action::BuildMakeshiftCommRelay,
        Action::Wait(3),
    ];
    for a in &path {
        c.apply_action(a);
    }
    assert_eq!(c.action_log, path);
    assert_eq!(c.reserves.alpha_cores(), 0);
    assert_eq!(c.reserves.colony_item_count(ColonyItem::MantleBore), 0);
    let f = facility(&c, 9, FacilityType::Mining).unwrap();
    assert!(f.alpha_core && f.item == Some(ColonyItem::MantleBore));
    assert!(c.planets[&9].has_colony && c.planets[&9].free_port);
    assert!(c.planets[&7].hazard_pay && c.planets[&7].alpha_admin);
    assert!(c.makeshift_comm_relay);

    for _ in 0..path.len() {
        c.undo_last_action();
    }
    assert!(c.action_log.is_empty());
    assert_eq!(c.reserves.story_points(), 5);
    assert_eq!(c.reserves.alpha_cores(), 2);
    assert_eq!(c.reserves.colony_item_count(ColonyItem::MantleBore), 1);
    assert!(!c.makeshift_comm_relay);
    for h in [7u64, 9u64] {
        let p = &c.planets[&h];
        assert!(p.facilities.is_empty() && !p.free_port && !p.hazard_pay && !p.alpha_admin);
    }
    assert!(c.planets[&7].has_colony && !c.planets[&9].has_colony);
}

#[test]
fn undo_with_an_empty_log_changes_nothing() {
    let mut c = colony(3, 1);
    c.undo_last_action();
    assert!(c.action_log.is_empty());
    assert_eq!(c.reserves.story_points(), 3);
    assert_eq!(c.reserves.alpha_cores(), 1);
}

#[test]
fn adding_a_facility_twice_builds_it_once() {
    let mut c = colony(0, 0);
    c.apply_action(&Action::AddFacility(7, FacilityType::Farming));
    c.apply_action(&Action::AddFacility(7, FacilityType::Farming));
    assert_eq!(c.planets[&7].facilities.len(), 1);
    assert_eq!(c.action_log.len(), 2);
}

#[test]
fn an_unaffordable_improvement_is_still_installed_unpaid() {
    let mut c = colony(1, 0);
    c.apply_action(&Action::AddFacility(7, FacilityType::Mining));
    c.apply_action(&Action::AddImprovement(7, FacilityType::Mining));
    assert_eq!(c.reserves.story_points(), 1);
    assert!(facility(&c, 7, FacilityType::Mining).unwrap().improved);
}

fn result(solved: bool, cost: i32, cutoff: bool) -> AStarSearchResult {
    AStarSearchResult {
        solution: if solved { Some(vec![Action::Wait(1)]) } else { None },
        cost,
        cutoff_occurred: cutoff,
    }
}

#[test]
fn deepening_raises_the_bound_to_the_least_overshoot() {
    assert_eq!(deepening_step(&result(false, 17, true), false), Some(17));
}

#[test]
fn deepening_stops_on_a_plan_no_cutoff_or_time_up() {
    assert_eq!(deepening_step(&result(true, 4, true), false), None);
    assert_eq!(deepening_step(&result(false, 9, false), false), None);
    assert_eq!(deepening_step(&result(false, 9, true), true), None);
}

#[test]
fn time_limit_in_milliseconds() {
    assert!(!time_exceeded(2_000_000, 2));
    assert!(time_exceeded(2_000_001, 2));
    assert!(time_exceeded(1, 0));
}

#[test]
fn children_merge_to_the_least_cost_and_any_cutoff() {
    assert_eq!(merge_child(i32::MAX, false, &result(false, 12, true)), (12, true));
    assert_eq!(merge_child(12, true, &result(false, 20, false)), (12, true));
    assert_eq!(merge_child(12, false, &result(false, 5, false)), (5, false));
}

#[test]
fn nodes_beyond_the_bound_are_cut_off() {
    let r = bound_cutoff(11, 10).unwrap();
    assert!(r.solution.is_none() && r.cost == 11 && r.cutoff_occurred);
    assert!(bound_cutoff(10, 10).is_none());
}

#[test]
fn only_waits_cost_months() {
    assert_eq!(action_cost(&Action::Wait(6)), 6);
    assert_eq!(action_cost(&Action::Colonize(1)), 0);
}

#[test]
fn seeding_goes_on_until_the_deadline() {
    assert!(continue_seeding(0, 1));
    assert!(!continue_seeding(5, 5));
    assert!(!continue_seeding(6, 5));
}

fn three_planets() -> (SystemFacts, SearchContext, HashSet<u64>) {
    let f = SystemFacts {
        planets: [1u64, 2, 3].into_iter().collect(),
        colonized: [1u64].into_iter().collect(),
        relay_buildable: false,
        stable_point_free: false,
    };
    let ctx = SearchContext { relevant_facilities: HashMap::new(), allow_install_items: false };
    let all = f.planets.clone();
    (f, ctx, all)
}

#[test]
fn a_seeding_step_before_the_deadline_leaves_the_planet_out() {
    let (f, ctx, all) = three_planets();
    let mut seeds: Vec<SystemPlan> = Vec::new();
    let stop = seed_drop_one(&f, &ctx, &all, &[false, true], 2, 10, 100, &mut seeds);
    assert!(!stop);
    assert_eq!(seeds.len(), 2);
    assert!(!seeds[0].planets[&2].colonize && seeds[0].planets[&3].colonize);
    assert!(!seeds[0].planets[&3].free_port && seeds[1].planets[&3].free_port);
}

#[test]
fn a_seeding_step_after_the_deadline_adds_nothing() {
    let (f, ctx, all) = three_planets();
    let mut seeds: Vec<SystemPlan> = Vec::new();
    let stop = seed_drop_one(&f, &ctx, &all, &[false], 2, 100, 100, &mut seeds);
    assert!(stop);
    assert!(seeds.is_empty());
}

#[test]
fn popped_moves_are_dropped_rescored_or_accepted() {
    let fresh = QueuedMove { key: MoveKey::RelayFlip, sentinel: false, version: 3 };
    let stale = QueuedMove { version: 2, ..fresh };
    let sentinel = QueuedMove { sentinel: true, ..fresh };
    assert_eq!(popped_move(false, &fresh, 3), PoppedMove::Discard);
    assert_eq!(popped_move(true, &stale, 3), PoppedMove::Rescore);
    assert_eq!(popped_move(true, &sentinel, 3), PoppedMove::Rescore);
    assert_eq!(popped_move(true, &fresh, 3), PoppedMove::Accept);
}

#[test]
fn rescored_moves_are_queued_only_when_better() {
    let (m, queued) = rescored_move(MoveKey::ColonizeFlip(4), 7, true);
    assert_eq!(m, QueuedMove { key: MoveKey::ColonizeFlip(4), sentinel: false, version: 7 });
    assert!(queued);
    assert!(!rescored_move(MoveKey::ColonizeFlip(4), 7, false).1);
}

#[test]
fn every_fourth_accept_refreshes_all_parked_moves() {
    let mut c = ClimbCounters::new();
    c.verification_sweeps = 5;
    let refreshes: Vec<bool> = (0..8).map(|_| c.accept(false)).collect();
    assert_eq!(refreshes, vec![false, false, false, true, false, false, false, true]);
    assert_eq!((c.version, c.accepts, c.verification_sweeps), (8, 8, 0));
    assert!(c.accept(true));
}

#[test]
fn the_climb_settles_after_twenty_empty_sweeps() {
    let mut c = ClimbCounters::new();
    for k in 1..=20u32 {
        assert!(c.start_sweep());
        assert_eq!(c.verification_sweeps, k);
    }
    assert!(!c.start_sweep());
    assert_eq!(c.verification_sweeps, 20);
}

#[test]
fn the_climb_stops_on_budget_or_time() {
    assert!(!climb_out_of_budget(9, 10, false));
    assert!(climb_out_of_budget(10, 10, false));
    assert!(climb_out_of_budget(0, 10, true));
}

#[test]
fn reordering_a_run_of_actions_keeps_the_sequence_hash() {
    let a = Action::AddFacility(3, FacilityType::Mining);
    let b = Action::Colonize(3);
    let c = Action::SetFreePort(3, true);
    let xs = vec![Action::Wait(2), a, b, c, Action::Wait(1), Action::Wait(4)];
    let ys = vec![Action::Wait(2), c, a, b, Action::Wait(4), Action::Wait(1)];
    assert_eq!(get_action_sequence_hash(&xs), get_action_sequence_hash(&ys));
    let moved = vec![a, Action::Wait(2), b, c, Action::Wait(1), Action::Wait(4)];
    assert_ne!(get_action_sequence_hash(&xs), get_action_sequence_hash(&moved));
}

fn name_hash(name: &str) -> u64 {
    let mut hasher = DefaultHasher::new();
    name.hash(&mut hasher);
    hasher.finish()
}

/// A single uncolonized planet with the facilities every planet starts with.
fn single_planet(name: &str, sp: u32, cores: u32) -> (ColonyState, u64) {
    let hash = name_hash(name);
    let mut p = planet(false);
    for ft in [FacilityType::Population, FacilityType::Spaceport] {
        p.facilities.push(FacilityState { kind: ft, improved: false, alpha_core: false, item: None });
    }
    let mut planets = HashMap::new();
    planets.insert(hash, p);
    (ColonyState::new(Reserves::new(sp, cores), planets, false), hash)
}

type PlanetSnapshot = (u64, bool, bool, bool, bool, Vec<FacilityState>);

fn snapshot(c: &ColonyState) -> (u32, u32, Vec<(u64, u32)>, bool, Vec<Action>, Vec<PlanetSnapshot>) {
    let mut items: Vec<(u64, u32)> = c.reserves.colony_items().iter().map(|(k, v)| (*k, *v)).collect();
    items.sort();
    let mut planets: Vec<PlanetSnapshot> = c
        .planets
        .iter()
        .map(|(h, p)| (*h, p.has_colony, p.free_port, p.hazard_pay, p.alpha_admin, p.facilities.clone()))
        .collect();
    planets.sort_by_key(|p| p.0);
    (
        c.reserves.story_points(),
        c.reserves.alpha_cores(),
        items,
        c.makeshift_comm_relay,
        c.action_log.clone(),
        planets,
    )
}

#[test]
fn facility_improvements_cost_two_then_double_per_planet() {
    let (mut state, hash) = single_planet("Test 1", 20, 0);
    state.apply_action(&Action::Colonize(hash));

    state.apply_action(&Action::AddImprovement(hash, FacilityType::Population));
    assert_eq!(state.reserves.story_points(), 18, "first facility improvement on a planet costs 2 SP");

    state.apply_action(&Action::AddImprovement(hash, FacilityType::Spaceport));
    assert_eq!(state.reserves.story_points(), 14, "second facility improvement on the same planet costs 4 SP");

    state.undo_last_action();
    assert_eq!(state.reserves.story_points(), 18, "undo refunds the second improvement's 4 SP cost");

    state.undo_last_action();
    assert_eq!(state.reserves.story_points(), 20, "undo refunds the first improvement's 2 SP cost");
}

/// Replaying an action log from scratch must reproduce exactly the same
/// state as undoing it step by step.
#[test]
fn apply_undo_round_trip_is_consistent() {
    let (mut state, hash) = single_planet("Terran 1", 5, 5);
    state.apply_action(&Action::Colonize(hash));
    for a in [
        Action::AddFacility(hash, FacilityType::Megaport),
        Action::Wait(2),
        Action::SetFreePort(hash, true),
        Action::AddFacility(hash, FacilityType::LightIndustry),
        Action::Wait(3),
        Action::AddFacility(hash, FacilityType::GroundDefenses),
    ] {
        state.apply_action(&a);
    }
    let actions = state.action_log.clone();
    for _ in 0..=actions.len() {
        state.undo_last_action();
    }
    let blank = snapshot(&state);
    let mut replayed = Vec::new();
    for a in &actions {
        state.apply_action(a);
        replayed.push(snapshot(&state));
    }
    for i in (0..replayed.len()).rev() {
        assert_eq!(replayed[i], snapshot(&state), "drift at action {:?}", actions[i]);
        state.undo_last_action();
    }
    assert_eq!(snapshot(&state), blank);
}
