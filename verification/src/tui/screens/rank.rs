use vstd::prelude::*;

use crate::rank::RankScorer;
use crate::tui::app::ScopeMode;

verus! {

/// The scorer's display name.
pub open spec fn scorer_text(scorer: RankScorer) -> Seq<char> {
    match scorer {
        RankScorer::Quick => "quick"@,
        RankScorer::Template => "template"@,
        RankScorer::Bound => "bound"@,
    }
}

/// The scorer's display name, as shown in the scorer picker.
pub fn scorer_name(scorer: RankScorer) -> (s: &'static str)
    ensures
        s@ == scorer_text(scorer),
{
    match scorer {
        RankScorer::Quick => "quick",
        RankScorer::Template => "template",
        RankScorer::Bound => "bound",
    }
}

/// The scope after the scope key: all systems become visible only once the
/// player has accepted spoilers (`None` asks for that confirmation);
/// from all systems it goes back to the discovered ones.
pub fn cycle_scope(scope: ScopeMode, spoiler_confirmed: bool) -> (next: Option<ScopeMode>)
    ensures
        next == match scope {
            ScopeMode::Discovered => if spoiler_confirmed {
                Some(ScopeMode::All)
            } else {
                None
            },
            ScopeMode::All => Some(ScopeMode::Discovered),
        },
{
    match scope {
        ScopeMode::Discovered => {
            if spoiler_confirmed {
                Some(ScopeMode::All)
            } else {
                None
            }
        },
        ScopeMode::All => Some(ScopeMode::Discovered),
    }
}

} // verus!
