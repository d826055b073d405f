use std::collections::{HashMap, HashSet};

use system_solver::constants::{upgrade_predecessors, ColonyItem, FacilityType};
use std::time::{Duration, Instant};

use system_solver::solver::decomp::{
    apply_move, build_system_plan, factored_planet, move_keys, queue_allows_action, one_move_neighbors, plan_develops, plan_key,
    planet_plan_full, planet_set_seed_plans, seed_free_ports, swap_neighbors, MoveKey, PlanetPlan,
    SearchContext, SystemFacts, SystemPlan,
};
use system_solver::solver::reserves::Reserves;
use system_solver::solver::state::Action;
use system_solver::solver::SolverSettings;

fn bare() -> PlanetPlan {
    PlanetPlan {
        colonize: false,
        free_port: false,
        hazard_pay: false,
        upgrade_admin: false,
        improvements: false,
        alpha_cores: false,
        install_items: false,
        facilities: Vec::new(),
    }
}

fn developed(facilities: Vec<FacilityType>) -> PlanetPlan {
    PlanetPlan { colonize: true, facilities, ..bare() }
}

fn system(planets: Vec<(u64, PlanetPlan)>, relay: bool) -> SystemPlan {
    SystemPlan { planets: planets.into_iter().collect(), makeshift_comm_relay: relay }
}

fn facts(colonized: &[u64], stable_point_free: bool) -> SystemFacts {
    SystemFacts {
        planets: HashSet::new(),
        colonized: colonized.iter().copied().collect::<HashSet<u64>>(),
        relay_buildable: false,
        stable_point_free,
    }
}

fn system_facts(planets: &[u64], colonized: &[u64], relay_buildable: bool) -> SystemFacts {
    SystemFacts {
        planets: planets.iter().copied().collect(),
        colonized: colonized.iter().copied().collect(),
        relay_buildable,
        stable_point_free: false,
    }
}

fn context(relevant: Vec<(u64, Vec<FacilityType>)>, allow_install_items: bool) -> SearchContext {
    SearchContext { relevant_facilities: relevant.into_iter().collect(), allow_install_items }
}

#[test]
fn plan_key_packs_toggles_and_facilities_in_hash_order() {
    let mut p = developed(vec![FacilityType::Mining]);
    p.hazard_pay = true;
    let plan = system(vec![(9, bare()), (4, p)], true);
    let (entries, relay) = plan_key(&plan);
    assert!(relay);
    // colonize is bit 0, hazard pay bit 2, mining (code 5) bit 12.
    assert_eq!(entries, vec![(4, 1 | 4 | (1 << 12)), (9, 0)]);
}

#[test]
fn plan_key_ignores_facility_order_and_repeats() {
    let a = system(vec![(1, developed(vec![FacilityType::Mining, FacilityType::Farming]))], false);
    let b = system(
        vec![(1, developed(vec![FacilityType::Farming, FacilityType::Mining, FacilityType::Farming]))],
        false,
    );
    assert_eq!(plan_key(&a), plan_key(&b));
    let c = system(vec![(1, developed(vec![FacilityType::Farming]))], false);
    assert_ne!(plan_key(&a), plan_key(&c));
    let d = system(vec![(1, developed(vec![FacilityType::Mining, FacilityType::Farming]))], true);
    assert_ne!(plan_key(&a), plan_key(&d));
}

#[test]
fn plan_sizes_count_distinct_decisions() {
    let mut p = developed(vec![FacilityType::Mining, FacilityType::Mining, FacilityType::Farming]);
    p.free_port = true;
    assert_eq!(p.size(), 4);
    let plan = system(vec![(1, p), (2, bare())], true);
    assert_eq!(plan.size(), 5);
    assert_eq!(system(Vec::new(), false).size(), 0);
}

#[test]
fn full_planet_plan_lists_each_buildable_facility_once() {
    let p = planet_plan_full(
        &[FacilityType::Mining, FacilityType::Farming, FacilityType::Mining],
        true,
        false,
    );
    assert!(p.colonize && !p.free_port);
    assert!(p.hazard_pay && p.upgrade_admin && p.improvements && p.alpha_cores && p.install_items);
    assert_eq!(p.facilities, vec![FacilityType::Mining, FacilityType::Farming]);
}

#[test]
fn upgrade_chains_list_lower_tiers() {
    assert_eq!(
        upgrade_predecessors(FacilityType::StarFortress),
        &[FacilityType::OrbitalStation, FacilityType::BattleStation]
    );
    assert_eq!(upgrade_predecessors(FacilityType::Megaport), &[FacilityType::Spaceport]);
    assert!(upgrade_predecessors(FacilityType::Mining).is_empty());
}

#[test]
fn planets_develop_when_colonized_or_planned() {
    let plan = system(vec![(1, developed(Vec::new())), (2, bare())], false);
    let f = facts(&[3], false);
    assert!(plan_develops(&f, &plan, 1));
    assert!(!plan_develops(&f, &plan, 2));
    assert!(plan_develops(&f, &plan, 3));
    assert!(!plan_develops(&f, &plan, 4));
}

#[test]
fn relay_flip_needs_a_stable_point_or_a_built_relay() {
    let ctx = context(Vec::new(), true);
    let plan = system(vec![(1, bare())], false);
    assert!(apply_move(&facts(&[], false), &ctx, &plan, MoveKey::RelayFlip).is_none());
    let flipped = apply_move(&facts(&[], true), &ctx, &plan, MoveKey::RelayFlip).unwrap();
    assert!(flipped.makeshift_comm_relay);
    let back = apply_move(&facts(&[], false), &ctx, &flipped, MoveKey::RelayFlip).unwrap();
    assert!(!back.makeshift_comm_relay);
}

#[test]
fn colonize_flip_enters_with_the_full_plan_and_leaves_empty() {
    let ctx = context(vec![(2, vec![FacilityType::Farming, FacilityType::Spaceport])], false);
    let plan = system(vec![(1, developed(vec![FacilityType::Mining])), (2, bare())], false);
    let f = facts(&[], false);

    let entered = apply_move(&f, &ctx, &plan, MoveKey::ColonizeFlip(2)).unwrap();
    let p2 = &entered.planets[&2];
    assert!(p2.colonize && !p2.free_port && p2.hazard_pay && p2.install_items);
    assert_eq!(p2.facilities, vec![FacilityType::Farming, FacilityType::Spaceport]);
    assert_eq!(entered.planets[&1].facilities, vec![FacilityType::Mining]);

    let left = apply_move(&f, &ctx, &plan, MoveKey::ColonizeFlip(1)).unwrap();
    assert!(!left.planets[&1].colonize);
    assert!(left.planets[&1].facilities.is_empty());

    assert!(apply_move(&facts(&[1], false), &ctx, &plan, MoveKey::ColonizeFlip(1)).is_none());
    assert!(apply_move(&f, &ctx, &plan, MoveKey::ColonizeFlip(7)).is_none());
}

#[test]
fn facility_moves_drop_and_add_with_upgrade_chains() {
    let ctx = context(Vec::new(), true);
    let plan = system(vec![(1, developed(vec![FacilityType::Mining, FacilityType::OrbitalStation]))], false);
    let f = facts(&[], false);

    let dropped = apply_move(&f, &ctx, &plan, MoveKey::FacDrop(1, FacilityType::Mining)).unwrap();
    assert_eq!(dropped.planets[&1].facilities, vec![FacilityType::OrbitalStation]);
    assert!(dropped.planets[&1].colonize);
    assert!(apply_move(&f, &ctx, &plan, MoveKey::FacDrop(1, FacilityType::Farming)).is_none());

    let added = apply_move(&f, &ctx, &plan, MoveKey::FacAdd(1, FacilityType::StarFortress)).unwrap();
    assert_eq!(
        added.planets[&1].facilities,
        vec![
            FacilityType::Mining,
            FacilityType::OrbitalStation,
            FacilityType::StarFortress,
            FacilityType::BattleStation
        ]
    );
    assert!(apply_move(&f, &ctx, &plan, MoveKey::FacAdd(1, FacilityType::Mining)).is_none());

    let undeveloped = system(vec![(1, bare())], false);
    assert!(apply_move(&f, &ctx, &undeveloped, MoveKey::FacAdd(1, FacilityType::Mining)).is_none());
}

#[test]
fn toggle_flip_changes_one_toggle() {
    let ctx = context(Vec::new(), true);
    let plan = system(vec![(1, developed(vec![FacilityType::Mining]))], false);
    let f = facts(&[], false);
    let t = apply_move(&f, &ctx, &plan, MoveKey::ToggleFlip(1, 2)).unwrap();
    let p = &t.planets[&1];
    assert!(p.hazard_pay);
    assert!(p.colonize && !p.free_port && !p.upgrade_admin);
    assert_eq!(p.facilities, vec![FacilityType::Mining]);
    let again = apply_move(&f, &ctx, &t, MoveKey::ToggleFlip(1, 2)).unwrap();
    assert!(!again.planets[&1].hazard_pay);
}

#[test]
fn move_keys_follow_the_fixed_order() {
    let ctx = context(
        vec![(5, vec![FacilityType::Farming, FacilityType::Mining, FacilityType::Refining])],
        false,
    );
    let plan = system(
        vec![(5, developed(vec![FacilityType::Refining, FacilityType::Mining])), (3, bare())],
        false,
    );
    // Planet 3 already has a colony: no colonize flip, but it is developed.
    let keys = move_keys(&facts(&[3], true), &ctx, &plan);
    assert_eq!(
        keys,
        vec![
            MoveKey::RelayFlip,
            MoveKey::ToggleFlip(3, 1),
            MoveKey::ToggleFlip(3, 2),
            MoveKey::ToggleFlip(3, 3),
            MoveKey::ToggleFlip(3, 4),
            MoveKey::ToggleFlip(3, 5),
            MoveKey::ColonizeFlip(5),
            MoveKey::FacDrop(5, FacilityType::Mining),
            MoveKey::FacDrop(5, FacilityType::Refining),
            MoveKey::FacAdd(5, FacilityType::Farming),
            MoveKey::ToggleFlip(5, 1),
            MoveKey::ToggleFlip(5, 2),
            MoveKey::ToggleFlip(5, 3),
            MoveKey::ToggleFlip(5, 4),
            MoveKey::ToggleFlip(5, 5),
        ]
    );
}

#[test]
fn neighbors_apply_every_legal_move() {
    let ctx = context(vec![(5, vec![FacilityType::Farming])], true);
    let plan = system(vec![(5, developed(vec![FacilityType::Mining])), (8, bare())], false);
    let f = facts(&[], false);
    let keys = move_keys(&f, &ctx, &plan);
    // No relay; planet 5: colonize, drop mining, add farming, six toggles;
    // planet 8 (undeveloped): colonize only.
    assert_eq!(keys.len(), 10);
    let neighbors = one_move_neighbors(&f, &ctx, &plan);
    assert_eq!(neighbors.len(), 10);
    assert!(!neighbors[0].planets[&5].colonize);
    assert!(neighbors[2].planets[&5].facilities.contains(&FacilityType::Farming));
    assert!(neighbors[9].planets[&8].colonize);
}

#[test]
fn swaps_pair_each_planned_facility_with_each_missing_one() {
    let ctx = context(
        vec![(5, vec![FacilityType::Farming, FacilityType::Megaport, FacilityType::Mining])],
        false,
    );
    let plan = system(
        vec![(5, developed(vec![FacilityType::Mining, FacilityType::Commerce])), (6, bare())],
        false,
    );
    let swaps = swap_neighbors(&facts(&[], false), &ctx, &plan);
    assert_eq!(swaps.len(), 4);
    assert_eq!(
        swaps[0].planets[&5].facilities,
        vec![FacilityType::Commerce, FacilityType::Farming]
    );
    assert_eq!(
        swaps[1].planets[&5].facilities,
        vec![FacilityType::Commerce, FacilityType::Megaport, FacilityType::Spaceport]
    );
    assert_eq!(swaps[2].planets[&5].facilities, vec![FacilityType::Mining, FacilityType::Farming]);
    assert!(swaps.iter().all(|s| s.planets[&6].facilities.is_empty()));
}

#[test]
fn reserves_spend_only_what_is_held() {
    let mut r = Reserves::new(3, 1);
    assert!(!r.spend_story_points(4));
    assert_eq!(r.story_points(), 3);
    assert!(r.spend_story_points(2));
    assert_eq!(r.story_points(), 1);
    r.add_story_points(5);
    assert_eq!(r.story_points(), 6);
    assert!(r.spend_alpha_cores(1));
    assert!(!r.spend_alpha_cores(1));
    r.add_alpha_cores(2);
    assert_eq!(r.alpha_cores(), 2);
}

#[test]
fn reserves_count_colony_items() {
    let mut r = Reserves::new(0, 0);
    assert!(!r.remove_colony_item(&ColonyItem::MantleBore));
    r.add_colony_item(ColonyItem::MantleBore);
    r.add_colony_item(ColonyItem::MantleBore);
    r.add_colony_item(ColonyItem::SoilNanites);
    assert_eq!(r.colony_item_count(ColonyItem::MantleBore), 2);
    assert!(r.remove_colony_item(&ColonyItem::MantleBore));
    assert_eq!(r.colony_item_count(ColonyItem::MantleBore), 1);
    assert!(r.remove_colony_item(&ColonyItem::SoilNanites));
    assert_eq!(r.colony_items().len(), 1);
    assert!(r.remove_colony_item(&ColonyItem::MantleBore));
    assert!(r.colony_items().is_empty());
}

#[test]
fn removing_an_item_just_added_restores_the_counts() {
    let mut r = Reserves::new(0, 0);
    r.add_colony_item(ColonyItem::CoronalPortal);
    let before = r.colony_items().clone();
    r.add_colony_item(ColonyItem::CoronalPortal);
    r.add_colony_item(ColonyItem::PlasmaDynamo);
    assert!(r.remove_colony_item(&ColonyItem::PlasmaDynamo));
    assert!(r.remove_colony_item(&ColonyItem::CoronalPortal));
    assert_eq!(r.colony_items(), &before);
}

#[test]
fn plans_with_an_empty_planet_entry_permit_the_same_but_key_differently() {
    let with_entry = system(vec![(1, bare())], false);
    let without = system(Vec::new(), false);
    assert_ne!(plan_key(&with_entry), plan_key(&without));
}

#[test]
fn seed_plans_develop_the_active_planets_fully() {
    let f = system_facts(&[1, 2, 3], &[1], true);
    let ctx = context(vec![(2, vec![FacilityType::Mining])], false);
    let active: HashSet<u64> = [1, 2].into_iter().collect();
    let plan = build_system_plan(&f, &ctx, &active, true);
    assert!(plan.makeshift_comm_relay);
    assert_eq!(plan.planets.len(), 3);
    let p1 = &plan.planets[&1];
    assert!(!p1.colonize && p1.free_port && p1.hazard_pay && p1.facilities.is_empty());
    let p2 = &plan.planets[&2];
    assert!(p2.colonize && p2.free_port && p2.install_items);
    assert_eq!(p2.facilities, vec![FacilityType::Mining]);
    let p3 = &plan.planets[&3];
    assert!(!p3.colonize && !p3.hazard_pay && p3.facilities.is_empty());
}

#[test]
fn free_port_seeds_depend_on_floors() {
    assert_eq!(seed_free_ports(false), &[true]);
    assert_eq!(seed_free_ports(true), &[false, true]);
}

#[test]
fn planet_set_seeds_drop_each_uncolonized_planet_in_turn() {
    let f = system_facts(&[1, 2, 3], &[1], false);
    let ctx = context(Vec::new(), false);
    let seeds = planet_set_seed_plans(&f, &ctx, false, Instant::now(), Duration::from_secs(3600));
    assert_eq!(seeds.len(), 3);
    assert!(seeds[0].planets[&2].colonize && seeds[0].planets[&3].colonize);
    assert!(!seeds[1].planets[&2].colonize && seeds[1].planets[&3].colonize);
    assert!(seeds[2].planets[&2].colonize && !seeds[2].planets[&3].colonize);
    assert!(seeds.iter().all(|s| s.planets[&1].hazard_pay));

    let both = planet_set_seed_plans(&f, &ctx, true, Instant::now(), Duration::from_secs(3600));
    assert_eq!(both.len(), 6);
    assert!(!both[0].planets[&2].free_port && both[1].planets[&2].free_port);
}

#[test]
fn planet_set_seeds_stop_dropping_at_the_deadline() {
    let f = system_facts(&[1, 2, 3], &[1], false);
    let ctx = context(Vec::new(), false);
    let seeds = planet_set_seed_plans(&f, &ctx, false, Instant::now(), Duration::ZERO);
    assert_eq!(seeds.len(), 1);
}

#[test]
fn planet_set_seeds_never_leave_no_planet() {
    let f = system_facts(&[5], &[], false);
    let ctx = context(Vec::new(), false);
    let seeds = planet_set_seed_plans(&f, &ctx, false, Instant::now(), Duration::from_secs(3600));
    assert_eq!(seeds.len(), 1);
    assert!(seeds[0].planets[&5].colonize);
    let none = system_facts(&[], &[], false);
    assert!(planet_set_seed_plans(&none, &ctx, false, Instant::now(), Duration::from_secs(1)).is_empty());
}

#[test]
fn factored_planet_names_the_planet_acted_on() {
    assert_eq!(factored_planet(&Action::Colonize(4)), Some(4));
    assert_eq!(factored_planet(&Action::InstallItem(6, FacilityType::Mining, ColonyItem::MantleBore)), Some(6));
    assert_eq!(factored_planet(&Action::BuildMakeshiftCommRelay), None);
    assert_eq!(factored_planet(&Action::Wait(2)), None);
}

#[test]
fn build_queue_holds_one_facility_per_planet() {
    let busy: HashSet<u64> = [3].into_iter().collect();
    let queued = SolverSettings { include_industry_upgrades: true, allow_parallel_builds: false };
    let parallel = SolverSettings { include_industry_upgrades: true, allow_parallel_builds: true };
    assert!(!queue_allows_action(&busy, &Action::AddFacility(3, FacilityType::Mining), queued));
    assert!(queue_allows_action(&busy, &Action::AddFacility(4, FacilityType::Mining), queued));
    assert!(queue_allows_action(&busy, &Action::AddImprovement(3, FacilityType::Mining), queued));
    assert!(queue_allows_action(&busy, &Action::AddFacility(3, FacilityType::Mining), parallel));
}
