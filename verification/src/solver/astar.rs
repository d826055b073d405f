use vstd::prelude::*;

use crate::solver::state::Action;

verus! {

/// The months an action costs the search: a wait costs its months, anything
/// else nothing.
pub open spec fn spec_action_cost(action: Action) -> i32 {
    match action {
        Action::Wait(months) => months as i32,
        _ => 0,
    }
}

/// What an action adds to the path cost of the iterative-deepening search.
pub fn action_cost(action: &Action) -> (c: i32)
    ensures
        c == spec_action_cost(*action),
{
    match action {
        Action::Wait(months) => *months as i32,
        _ => 0,
    }
}

/// What one bounded depth-first pass found: a plan that meets the goal, or
/// none; the cost that goes with it (the least cost that overshot the bound,
/// when the pass was cut off); and whether any branch was cut off.
#[derive(Debug, Clone)]
pub struct AStarSearchResult {
    pub solution: Option<Vec<Action>>,
    pub cost: i32,
    pub cutoff_occurred: bool,
}

/// The deepening decision after a bounded pass: stop when it found a plan,
/// when nothing was cut off (a deeper pass would find nothing more), or when
/// time is up; otherwise search again with the bound raised to the least
/// overshooting cost.
pub open spec fn next_bound(solved: bool, cutoff: bool, cost: i32, time_up: bool) -> Option<i32> {
    if solved || !cutoff || time_up {
        None
    } else {
        Some(cost)
    }
}

/// The bound for the next pass of iterative deepening, or `None` to stop.
pub fn deepening_step(result: &AStarSearchResult, time_up: bool) -> (next: Option<i32>)
    ensures
        next == next_bound(result.solution is Some, result.cutoff_occurred, result.cost, time_up),
{
    if result.solution.is_some() {
        return None;
    }
    if result.cutoff_occurred {
        if time_up {
            None
        } else {
            Some(result.cost)
        }
    } else {
        None
    }
}

/// Whether more than `time_limit_ms` milliseconds have passed.
pub fn time_exceeded(elapsed_nanos: u128, time_limit_ms: u32) -> (b: bool)
    ensures
        b == (elapsed_nanos > time_limit_ms * 1_000_000),
{
    elapsed_nanos > (time_limit_ms as u128) * 1_000_000
}

/// The outcome of a pass over a node's children so far, after one more
/// child's pass: a cut-off child marks the node cut off and offers its cost
/// as the least overshoot; any other child offers its cost too.
pub open spec fn merged_cost(min_cost: i32, child_cost: i32) -> i32 {
    if child_cost < min_cost {
        child_cost
    } else {
        min_cost
    }
}

/// Fold one child's result into the node's least cost and cut-off flag.
pub fn merge_child(min_cost: i32, min_cutoff: bool, child: &AStarSearchResult) -> (r: (i32, bool))
    ensures
        r == (merged_cost(min_cost, child.cost), min_cutoff || child.cutoff_occurred),
{
    if child.cutoff_occurred {
        let cost = if child.cost < min_cost {
            child.cost
        } else {
            min_cost
        };
        (cost, true)
    } else if child.cost < min_cost {
        (child.cost, min_cutoff)
    } else {
        (min_cost, min_cutoff)
    }
}

/// The result of a node whose estimate `f` overshoots the bound: cut off at
/// cost `f`; `None` when it is within the bound.
pub fn bound_cutoff(f: i32, bound: i32) -> (r: Option<AStarSearchResult>)
    ensures
        match r {
            Some(res) => f > bound && res.solution is None && res.cost == f && res.cutoff_occurred,
            None => f <= bound,
        },
{
    if f > bound {
        Some(AStarSearchResult { solution: None, cost: f, cutoff_occurred: true })
    } else {
        None
    }
}

} // verus!
