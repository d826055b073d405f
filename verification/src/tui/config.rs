use vstd::prelude::*;

use std::collections::BTreeMap;

use crate::rank::RankScorer;

verus! {

/// When a star system counts as discovered.
#[derive(Debug, Clone, Copy, PartialEq, Eq, Structural)]
pub enum DiscoveryDefinition {
    AtLeastOneSurveyed,
    FullySurveyed,
}

/// Everything a ranking depends on besides the system itself; rankings made
/// under a different signature are stale.
#[derive(Debug, Clone, PartialEq, Eq)]
pub struct BalanceSignature {
    credits_bits: u64,
    story_points: u32,
    alpha_cores: u32,
    colony_items: BTreeMap<String, u32>,
    horizon_months: i32,
    solver_time_budget_ms: u32,
    include_industry_upgrades: bool,
    allow_parallel_builds: bool,
}

impl BalanceSignature {
    /// A signature from the settings' values; the credits are given by the
    /// bit pattern of their floating-point value.
    pub fn new(
        credits_bits: u64,
        story_points: u32,
        alpha_cores: u32,
        colony_items: BTreeMap<String, u32>,
        horizon_months: i32,
        solver_time_budget_ms: u32,
        include_industry_upgrades: bool,
        allow_parallel_builds: bool,
    ) -> (s: Self)
        ensures
            s.credits_bits() == credits_bits,
            s.story_points() == story_points,
            s.alpha_cores() == alpha_cores,
            s.colony_items() == colony_items,
            s.horizon_months() == horizon_months,
            s.solver_time_budget_ms() == solver_time_budget_ms,
            s.include_industry_upgrades() == include_industry_upgrades,
            s.allow_parallel_builds() == allow_parallel_builds,
    {
        BalanceSignature {
            credits_bits,
            story_points,
            alpha_cores,
            colony_items,
            horizon_months,
            solver_time_budget_ms,
            include_industry_upgrades,
            allow_parallel_builds,
        }
    }

    pub closed spec fn credits_bits(&self) -> u64 {
        self.credits_bits
    }

    pub closed spec fn story_points(&self) -> u32 {
        self.story_points
    }

    pub closed spec fn alpha_cores(&self) -> u32 {
        self.alpha_cores
    }

    pub closed spec fn colony_items(&self) -> BTreeMap<String, u32> {
        self.colony_items
    }

    pub closed spec fn horizon_months(&self) -> i32 {
        self.horizon_months
    }

    pub closed spec fn solver_time_budget_ms(&self) -> u32 {
        self.solver_time_budget_ms
    }

    pub closed spec fn include_industry_upgrades(&self) -> bool {
        self.include_industry_upgrades
    }

    pub closed spec fn allow_parallel_builds(&self) -> bool {
        self.allow_parallel_builds
    }
}

/// The scorer the ranking screen starts with.
pub fn default_rank_scorer() -> (s: RankScorer)
    ensures
        s == RankScorer::Bound,
{
    RankScorer::Bound
}

/// Rankings are ordered by score per planet unless configured otherwise.
pub fn default_rank_by_score_per_planet() -> (b: bool)
    ensures
        b,
{
    true
}

/// Industry upgrades are part of the action space unless configured
/// otherwise.
pub fn default_include_industry_upgrades() -> (b: bool)
    ensures
        b,
{
    true
}

} // verus!
