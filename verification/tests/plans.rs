use std::collections::HashMap;

use system_solver::constants::{ColonyItem, FacilityType};
use system_solver::solver::astar::action_cost;
use system_solver::solver::decomp::{wake_after_accept, MoveKey, PlanetPlan, SystemPlan, Toggle};
use system_solver::solver::state::{format_action, get_action_sequence_hash, sort_by_priority, Action};
use system_solver::tui::app::group_plan_actions;

fn names() -> HashMap<u64, String> {
    let mut m = HashMap::new();
    m.insert(7, "Jangala".to_string());
    m
}

#[test]
fn format_action_names_every_kind_of_step() {
    let n = names();
    let cases = vec![
        (Action::AddFacility(7, FacilityType::LightIndustry), "Build Light Industry on Jangala"),
        (Action::AddImprovement(7, FacilityType::Mining), "Improve Mining on Jangala"),
        (
            Action::AddAlphaCore(7, FacilityType::Population),
            "Install alpha core in Population & Infrastructure on Jangala",
        ),
        (
            Action::InstallItem(7, FacilityType::Mining, ColonyItem::MantleBore),
            "Install Mantle Bore in Mining on Jangala",
        ),
        (Action::SetFreePort(7, true), "Enable free port on Jangala"),
        (Action::SetFreePort(7, false), "Disable free port on Jangala"),
        (Action::SetHazardPay(7, true), "Enable hazard pay on Jangala"),
        (Action::SetHazardPay(7, false), "Disable hazard pay on Jangala"),
        (Action::UpgradeAdmin(7), "Install alpha-core administrator on Jangala"),
        (Action::BuildMakeshiftCommRelay, "Build makeshift comm relay"),
        (Action::Colonize(7), "Colonize Jangala"),
        (Action::Wait(1), "Wait 1 month"),
        (Action::Wait(0), "Wait 0 months"),
        (Action::Wait(12), "Wait 12 months"),
    ];
    for (action, text) in cases {
        assert_eq!(format_action(&action, &n), text);
    }
}

#[test]
fn format_action_falls_back_to_the_planet_hash() {
    let n = names();
    assert_eq!(format_action(&Action::Colonize(12345), &n), "Colonize 12345");
    assert_eq!(
        format_action(&Action::UpgradeAdmin(u64::MAX), &HashMap::new()),
        "Install alpha-core administrator on 18446744073709551615"
    );
}

#[test]
fn sort_by_priority_is_stable_and_descending() {
    let mut actions = vec![
        Action::SetFreePort(1, false),
        Action::Colonize(1),
        Action::AddFacility(1, FacilityType::Mining),
        Action::Wait(2),
        Action::AddFacility(2, FacilityType::Commerce),
        Action::AddImprovement(3, FacilityType::Mining),
        Action::SetHazardPay(1, false),
        Action::InstallItem(1, FacilityType::Mining, ColonyItem::MantleBore),
        Action::SetHazardPay(1, true),
        Action::BuildMakeshiftCommRelay,
        Action::SetFreePort(1, true),
        Action::UpgradeAdmin(1),
        Action::AddAlphaCore(1, FacilityType::Mining),
    ];
    sort_by_priority(&mut actions);
    assert_eq!(
        actions,
        vec![
            Action::AddFacility(2, FacilityType::Commerce),
            Action::InstallItem(1, FacilityType::Mining, ColonyItem::MantleBore),
            Action::Wait(2),
            Action::UpgradeAdmin(1),
            Action::AddAlphaCore(1, FacilityType::Mining),
            Action::AddFacility(1, FacilityType::Mining),
            Action::AddImprovement(3, FacilityType::Mining),
            Action::SetHazardPay(1, true),
            Action::SetFreePort(1, true),
            Action::BuildMakeshiftCommRelay,
            Action::Colonize(1),
            Action::SetHazardPay(1, false),
            Action::SetFreePort(1, false),
        ]
    );

    let mut empty: Vec<Action> = Vec::new();
    sort_by_priority(&mut empty);
    assert!(empty.is_empty());
}

#[test]
fn sequence_hash_of_nothing_is_the_offset_basis() {
    assert_eq!(get_action_sequence_hash(&[]), 0xcbf29ce484222325);
}

#[test]
fn sequence_hash_ignores_order_within_a_run_of_waits() {
    let a = vec![Action::Colonize(3), Action::Wait(1), Action::Wait(4), Action::Colonize(5)];
    let b = vec![Action::Colonize(3), Action::Wait(4), Action::Wait(1), Action::Colonize(5)];
    assert_eq!(get_action_sequence_hash(&a), get_action_sequence_hash(&b));
}

#[test]
fn sequence_hash_tells_runs_apart() {
    let a = vec![Action::Colonize(3), Action::Wait(1), Action::Colonize(5)];
    let b = vec![Action::Colonize(3), Action::Colonize(5), Action::Wait(1)];
    assert_ne!(get_action_sequence_hash(&a), get_action_sequence_hash(&b));
    let c = vec![Action::Wait(1)];
    let d = vec![Action::Wait(2)];
    assert_ne!(get_action_sequence_hash(&c), get_action_sequence_hash(&d));
}

#[test]
fn action_hash_depends_on_kind_and_payload() {
    assert_ne!(Action::Colonize(3).get_hash(), Action::UpgradeAdmin(3).get_hash());
    assert_ne!(Action::Colonize(3).get_hash(), Action::Colonize(4).get_hash());
    assert_ne!(Action::SetFreePort(3, true).get_hash(), Action::SetFreePort(3, false).get_hash());
    assert_eq!(Action::Wait(6).get_hash(), Action::Wait(6).get_hash());
}

#[test]
fn plan_rows_carry_the_month_waited_before_them() {
    let n = names();
    let actions = vec![
        Action::Colonize(7),
        Action::Wait(2),
        Action::AddFacility(7, FacilityType::Mining),
        Action::Wait(1),
        Action::Wait(3),
        Action::SetFreePort(7, true),
        Action::Wait(5),
    ];
    let rows = group_plan_actions(&actions, &n);
    assert_eq!(rows.len(), 3);
    assert_eq!((rows[0].month, rows[0].action_index), (0, 0));
    assert_eq!(rows[0].text, "Colonize Jangala");
    assert_eq!((rows[1].month, rows[1].action_index), (2, 2));
    assert_eq!(rows[1].text, "Build Mining on Jangala");
    assert_eq!((rows[2].month, rows[2].action_index), (6, 5));
    assert_eq!(rows[2].text, "Enable free port on Jangala");

    assert!(group_plan_actions(&[Action::Wait(4)], &n).is_empty());
}

fn plan(facilities: Vec<FacilityType>) -> PlanetPlan {
    PlanetPlan {
        colonize: true,
        free_port: false,
        hazard_pay: true,
        upgrade_admin: false,
        improvements: false,
        alpha_cores: true,
        install_items: false,
        facilities,
    }
}

#[test]
fn planet_plan_size_counts_facilities_and_toggles() {
    let p = plan(vec![FacilityType::Mining, FacilityType::Commerce]);
    assert_eq!(p.size(), 5);
    let mut q = plan(Vec::new());
    Toggle::Colonize.set(&mut q, false);
    Toggle::HazardPay.set(&mut q, false);
    Toggle::AlphaCores.set(&mut q, false);
    assert_eq!(q.size(), 0);
}

#[test]
fn toggles_read_and_write_one_decision() {
    let mut p = plan(Vec::new());
    assert!(Toggle::Colonize.get(&p));
    assert!(!Toggle::FreePort.get(&p));
    Toggle::FreePort.set(&mut p, true);
    assert!(Toggle::FreePort.get(&p));
    assert!(Toggle::HazardPay.get(&p));
    assert!(!Toggle::UpgradeAdmin.get(&p));
    assert!(!Toggle::Improvements.get(&p));
    assert!(Toggle::AlphaCores.get(&p));
    assert!(!Toggle::InstallItems.get(&p));
    Toggle::InstallItems.set(&mut p, true);
    assert!(p.install_items);
    assert!(p.free_port);
}

#[test]
fn system_plan_allows_only_the_planned_decisions() {
    let mut planets = HashMap::new();
    planets.insert(7, plan(vec![FacilityType::Mining]));
    let sp = SystemPlan { planets, makeshift_comm_relay: false };

    assert!(sp.allows(&Action::Colonize(7)));
    assert!(sp.allows(&Action::AddFacility(7, FacilityType::Mining)));
    assert!(!sp.allows(&Action::AddFacility(7, FacilityType::Farming)));
    assert!(sp.allows(&Action::SetHazardPay(7, true)));
    assert!(!sp.allows(&Action::SetHazardPay(7, false)));
    assert!(!sp.allows(&Action::SetFreePort(7, true)));
    assert!(sp.allows(&Action::AddAlphaCore(7, FacilityType::Mining)));
    assert!(!sp.allows(&Action::AddImprovement(7, FacilityType::Mining)));
    assert!(!sp.allows(&Action::InstallItem(7, FacilityType::Mining, ColonyItem::MantleBore)));
    assert!(!sp.allows(&Action::UpgradeAdmin(7)));
    assert!(!sp.allows(&Action::Colonize(8)));
    assert!(!sp.allows(&Action::BuildMakeshiftCommRelay));
    assert!(!sp.allows(&Action::Wait(1)));

    let relay = SystemPlan { planets: HashMap::new(), makeshift_comm_relay: true };
    assert!(relay.allows(&Action::BuildMakeshiftCommRelay));
}

#[test]
fn accepted_moves_wake_the_moves_they_can_affect() {
    let mining_on_1 = MoveKey::FacAdd(1, FacilityType::Mining);
    assert!(wake_after_accept(mining_on_1, MoveKey::ColonizeFlip(9)));
    assert!(wake_after_accept(mining_on_1, MoveKey::RelayFlip));
    assert!(wake_after_accept(mining_on_1, MoveKey::FacDrop(2, FacilityType::Mining)));
    assert!(wake_after_accept(mining_on_1, MoveKey::ToggleFlip(1, 3)));
    assert!(!wake_after_accept(mining_on_1, MoveKey::FacAdd(2, FacilityType::Farming)));
    assert!(!wake_after_accept(MoveKey::ToggleFlip(1, 2), MoveKey::ToggleFlip(2, 2)));
    assert!(wake_after_accept(MoveKey::RelayFlip, MoveKey::ToggleFlip(2, 2)));
}

#[test]
fn search_cost_counts_waited_months() {
    assert_eq!(action_cost(&Action::Wait(5)), 5);
    assert_eq!(action_cost(&Action::Colonize(2)), 0);
    assert_eq!(action_cost(&Action::BuildMakeshiftCommRelay), 0);
    assert_eq!(action_cost(&Action::Wait(u32::MAX)), -1);
}
