# system_solver

Planning helpers for Starsector colony systems, verified with Verus.

- `src/` is the verified library:
  - `solver/state.rs`: the actions of a colony plan, their hashes and the
    order-aware hash of an action sequence, priority ordering, and the text
    of each action.
  - `solver/decomp.rs`: per-planet plan decisions, the canonical plan key
    used to memoize plan scores, the seed plans of the planet-set search,
    and the moves of the plan hill climb (move keys, applying a move,
    one-move and swap neighborhoods, which parked moves an accepted move
    wakes).
  - `solver/pareto.rs`: the per-planet floor dynamic program of the Pareto
    sweeps, over a hash map keyed by the packed (slack, colonized) state,
    and the menu entries a per-planet solve covers.
  - `solver/allocation.rs`: the pools and grants of the per-planet income
    allocation: chunk sizes, the grants on offer, and granting a unit.
  - `solver/reserves.rs`: story points, alpha cores and colony items on hand.
  - `solver/astar.rs`: the iterative-deepening search's decisions: path
    cost, the next bound after a pass, merging children, cut-offs and the
    time limit.
  - `solver/colony.rs`: the counted part of a search state (reserves,
    planet decisions, relay, action log), applying and undoing actions, and
    the laws that undo takes back what apply did, one step or many.
  - `solver/climb.rs`: the lazy hill climb's queue decisions and counters,
    and the laws that keep its queue sound, so that it only accepts a move
    that was scored better than its plan.
  - `utils.rs`: lexing of facility formulas and their shunting-yard order.
  - `calendar.rs`, `text.rs`, `timekeeping.rs`, `sorting.rs`, `bits.rs`:
    proleptic Gregorian dates, decimal and title-case text, durations and
    instants, sorted listings, and bit lemmas.
  - `tui/`: what the terminal UI computes: scope filters, the save list,
    plan rows, the plan export and the plan screen's keys, durations and
    dates, picker and selection moves, parameter rows, and integer input
    parsing.
- `app/` holds what the library does not model: the process-wide
  cancellation flag, the TOML settings file, floating-point formula
  evaluation, writing the plan export to disk, and the loops whose scoring
  is floating point (the iterative-deepening search, the lazy hill climb,
  the per-planet income allocation and floor menus), which take every
  decision through the library.
- `tests/` exercises the library on concrete values.
