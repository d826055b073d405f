use vstd::prelude::*;

pub mod allocation;
pub mod astar;
pub mod climb;
pub mod colony;
pub mod decomp;
pub mod goal;
pub mod pareto;
pub mod reserves;
pub mod state;

verus! {

/// Knobs shared by every solver entry point.
#[derive(Clone, Copy, Debug, PartialEq, Eq)]
pub struct SolverSettings {
    /// Include story-point improvements and alpha-core installs on industries
    /// and structures.
    pub include_industry_upgrades: bool,
    /// Modded behavior: allow multiple industries/structures to build on the
    /// same colony at the same time. Vanilla Starsector queues them one at a
    /// time per colony.
    pub allow_parallel_builds: bool,
}

impl Default for SolverSettings {
    fn default() -> (s: Self)
        ensures
            s.include_industry_upgrades,
            !s.allow_parallel_builds,
    {
        SolverSettings { include_industry_upgrades: true, allow_parallel_builds: false }
    }
}

impl SolverSettings {
    /// Settings that preserve the library behavior from before build queues
    /// existed: builds are never queue-constrained.
    pub fn legacy(include_industry_upgrades: bool) -> (s: Self)
        ensures
            s.include_industry_upgrades == include_industry_upgrades,
            s.allow_parallel_builds,
    {
        SolverSettings { include_industry_upgrades, allow_parallel_builds: true }
    }

    /// Whether industry upgrades are left out of the action space.
    pub fn exclude_upgrades(self) -> (b: bool)
        ensures
            b == !self.include_industry_upgrades,
    {
        !self.include_industry_upgrades
    }
}

} // verus!
