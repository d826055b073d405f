use vstd::prelude::*;

verus! {

/// How systems are scored for ranking.
#[derive(Debug, Clone, Copy, PartialEq, Eq, Structural)]
pub enum RankScorer {
    /// Sparse-grid Pareto sweep with capped climbs.
    Quick,
    /// Fixed template portfolio, no climbing.
    Template,
    /// Per-planet budget-relaxed bound.
    Bound,
}

/// How ranked systems are ordered.
#[derive(Debug, Clone, Copy, PartialEq, Eq, Structural)]
pub enum RankSortMode {
    ScorePerPlanet,
    TotalScore,
}

} // verus!
