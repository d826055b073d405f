use system_solver::solver::allocation::{candidate_units, chunk_for, grant_unit, AllocPool, AllocUnit, PlanetGrant};
use system_solver::solver::pareto::{push_defense_choices, push_stability_choices, FloorChoice};

#[test]
fn chunks_shrink_as_the_pool_empties() {
    assert_eq!(chunk_for(70), 4);
    assert_eq!(chunk_for(16), 4);
    assert_eq!(chunk_for(15), 2);
    assert_eq!(chunk_for(4), 2);
    assert_eq!(chunk_for(3), 1);
    assert_eq!(chunk_for(0), 1);
}

#[test]
fn candidates_offer_chunks_and_each_held_item() {
    let pool = AllocPool { cores: 20, sps: 3, items: vec![0, 2, 1] };
    assert_eq!(
        candidate_units(&pool),
        vec![AllocUnit::Core(4), AllocUnit::Sp(1), AllocUnit::Item(1), AllocUnit::Item(2)]
    );
    let empty = AllocPool { cores: 0, sps: 0, items: vec![0] };
    assert!(candidate_units(&empty).is_empty());
}

#[test]
fn granting_moves_units_from_the_pool_to_the_planet() {
    let mut pool = AllocPool { cores: 5, sps: 2, items: vec![1, 0] };
    let mut grant = PlanetGrant { cores: 0, sps: 0, items: vec![0, 0] };
    assert!(grant_unit(&mut pool, &mut grant, AllocUnit::Core(4)));
    assert_eq!((pool.cores, grant.cores), (1, 4));
    assert!(!grant_unit(&mut pool, &mut grant, AllocUnit::Core(2)));
    assert_eq!((pool.cores, grant.cores), (1, 4));
    assert!(grant_unit(&mut pool, &mut grant, AllocUnit::Item(0)));
    assert_eq!((pool.items.clone(), grant.items.clone()), (vec![0, 0], vec![1, 0]));
    assert!(!grant_unit(&mut pool, &mut grant, AllocUnit::Item(1)));
    assert!(grant_unit(&mut pool, &mut grant, AllocUnit::Sp(2)));
    assert_eq!((pool.sps, grant.sps), (0, 2));
}

#[test]
fn a_stability_solve_covers_the_floors_it_reached() {
    let mut choices = vec![FloorChoice::skip()];
    let next = push_stability_choices(&mut choices, 500, 2, 4);
    assert_eq!(next, 5);
    assert_eq!(
        choices,
        vec![
            FloorChoice::skip(),
            FloorChoice::colonized(500, 2),
            FloorChoice::colonized(500, 3),
            FloorChoice::colonized(500, 4),
        ]
    );
    let mut short = Vec::new();
    assert_eq!(push_stability_choices(&mut short, -3, 7, 1), 8);
    assert_eq!(short, vec![FloorChoice::colonized(0, 7)]);
    let mut high = Vec::new();
    assert_eq!(push_stability_choices(&mut high, 9, 9, 40), 11);
    assert_eq!(high.len(), 2);
}

#[test]
fn the_top_defense_bucket_meets_every_floor() {
    let mut choices = Vec::new();
    let next = push_defense_choices(&mut choices, 100, 2, 9);
    assert_eq!(next, 5);
    assert_eq!(
        choices,
        vec![
            FloorChoice::colonized(100, 3),
            FloorChoice::colonized(100, 4),
            FloorChoice::colonized(100, i32::MAX / 4),
        ]
    );
}
