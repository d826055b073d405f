use std::collections::hash_map::DefaultHasher;
use std::hash::{Hash, Hasher};

use system_solver::constants::FacilityType;
use system_solver::solver::state::{get_action_sequence_hash, Action};

fn planet_hash(name: &str) -> u64 {
    let mut hasher = DefaultHasher::new();
    name.hash(&mut hasher);
    hasher.finish()
}

/// The sequence hash must be order-sensitive across a wait/non-wait boundary,
/// order-insensitive within a run of non-wait actions, and stable.
#[test]
fn action_sequence_hash_properties() {
    let h = planet_hash("p");

    let a = vec![Action::Wait(1), Action::AddFacility(h, FacilityType::Mining)];
    let b = vec![Action::AddFacility(h, FacilityType::Mining), Action::Wait(1)];
    assert_ne!(
        get_action_sequence_hash(&a),
        get_action_sequence_hash(&b),
        "moving a wait across a non-wait action must change the hash"
    );

    assert_eq!(get_action_sequence_hash(&a), get_action_sequence_hash(&a.clone()));
    assert_eq!(get_action_sequence_hash(&[]), get_action_sequence_hash(&[]));

    let c = vec![Action::SetFreePort(h, true), Action::SetHazardPay(h, true)];
    let d = vec![Action::SetHazardPay(h, true), Action::SetFreePort(h, true)];
    assert_eq!(
        get_action_sequence_hash(&c),
        get_action_sequence_hash(&d),
        "reordering independent non-wait actions should hash equal"
    );
}
