use vstd::prelude::*;

verus! {

/// System-wide structures that affect the colonies.
#[derive(Debug, Clone, Copy, Hash, PartialEq, Eq, Structural)]
pub enum Infrastructure {
    /// The only one the simulation uses: +2 stability on every colony.
    CommRelay { domain: bool },
    NavBuoy { domain: bool },
    SensorArray { domain: bool },
    Gate,
    Remnants { damaged: bool },
}

} // verus!
