use vstd::prelude::*;

verus! {

/// One of the three system metrics the solver can optimize.
#[derive(Debug, Clone, Copy, PartialEq, Eq)]
pub enum Metric {
    Income,
    Defense,
    Stability,
}

impl Metric {
    /// The metric's lower-case display name.
    pub fn as_str(self) -> (s: &'static str)
        ensures
            s@ == metric_name(self),
    {
        match self {
            Metric::Income => "income",
            Metric::Defense => "defense",
            Metric::Stability => "stability",
        }
    }
}

/// The display name of each metric.
pub open spec fn metric_name(m: Metric) -> Seq<char> {
    match m {
        Metric::Income => "income"@,
        Metric::Defense => "defense"@,
        Metric::Stability => "stability"@,
    }
}

} // verus!
