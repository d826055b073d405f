use vstd::prelude::*;

use std::collections::HashMap;
use vstd::std_specs::iter::IteratorSpec;

verus! {

/// Which metric a Pareto frontier trades income against.
#[derive(Debug, Clone, Copy, PartialEq, Eq, Structural)]
pub enum FrontierKind {
    Stability,
    Defense,
}

impl FrontierKind {
    pub fn as_str(self) -> (s: &'static str)
        ensures
            s@ == (match self {
                FrontierKind::Stability => "stability"@,
                FrontierKind::Defense => "defense"@,
            }),
    {
        match self {
            FrontierKind::Stability => "stability",
            FrontierKind::Defense => "defense",
        }
    }
}

/// One entry of a planet's floor menu: develop the planet to a plan worth
/// `income` that reaches `metric`, or leave it uncolonized.
#[derive(Debug, Clone, Copy, PartialEq, Eq)]
pub struct FloorChoice {
    income: i64,
    metric: i32,
    colonized: bool,
}

impl FloorChoice {
    #[verifier::type_invariant]
    spec fn income_nonnegative(self) -> bool {
        self.income >= 0
    }

    /// The income the choice contributes (never negative).
    pub closed spec fn spec_income(self) -> int {
        self.income as int
    }

    /// The metric value a colonized choice reaches.
    pub closed spec fn spec_metric(self) -> int {
        self.metric as int
    }

    /// Whether the choice colonizes the planet.
    pub closed spec fn spec_colonized(self) -> bool {
        self.colonized
    }

    /// A colonized choice. The income is the plan's income rounded up to
    /// whole credits; a negative income counts as zero.
    pub fn colonized(income: i64, metric: i32) -> (c: Self)
        ensures
            c.spec_income() == if income > 0 { income as int } else { 0 },
            c.spec_metric() == metric,
            c.spec_colonized(),
    {
        FloorChoice { income: if income > 0 { income } else { 0 }, metric, colonized: true }
    }

    /// Leave the planet uncolonized: no income, and it does not count toward
    /// the system average.
    pub fn skip() -> (c: Self)
        ensures
            c.spec_income() == 0,
            c.spec_metric() == 0,
            !c.spec_colonized(),
    {
        FloorChoice { income: 0, metric: 0, colonized: false }
    }
}

/// `x` clamped into the range of `i32`.
pub open spec fn clamp_i32(x: int) -> int {
    if x > i32::MAX {
        i32::MAX as int
    } else if x < i32::MIN {
        i32::MIN as int
    } else {
        x
    }
}

/// `a + b` clamped at `i64::MAX` (both are non-negative here).
pub open spec fn sat_add_i64(a: int, b: int) -> int {
    if a + b > i64::MAX {
        i64::MAX as int
    } else {
        a + b
    }
}

/// The DP key: the accumulated slack over the floor, and whether any planet
/// has been colonized.
pub struct FloorKey {
    pub slack: int,
    pub has_colony: bool,
}

/// Adding one planet's choice to the key. A colonized choice adds slack
/// `metric - floor` (with `i32` saturation) and positive slack is capped at
/// `slack_cap`; a skip leaves the key unchanged.
pub open spec fn floor_step(key: FloorKey, c: FloorChoice, floor: int, slack_cap: int) -> FloorKey {
    if c.spec_colonized() {
        let s = clamp_i32(key.slack + clamp_i32(c.spec_metric() - floor));
        FloorKey { slack: if s < slack_cap { s } else { slack_cap }, has_colony: true }
    } else {
        key
    }
}

/// The key reached by a selection of one choice per planet.
pub open spec fn selection_key(sel: Seq<FloorChoice>, floor: int, slack_cap: int) -> FloorKey
    decreases sel.len(),
{
    if sel.len() == 0 {
        FloorKey { slack: 0, has_colony: false }
    } else {
        floor_step(selection_key(sel.drop_last(), floor, slack_cap), sel.last(), floor, slack_cap)
    }
}

/// The total income of a selection, saturating at `i64::MAX`.
pub open spec fn selection_income(sel: Seq<FloorChoice>) -> int
    decreases sel.len(),
{
    if sel.len() == 0 {
        0
    } else {
        sat_add_i64(selection_income(sel.drop_last()), sel.last().spec_income())
    }
}

/// A selection meets the floor when its final slack is non-negative and, for
/// a positive floor, at least one planet is colonized.
pub open spec fn selection_feasible(sel: Seq<FloorChoice>, floor: int, slack_cap: int) -> bool {
    let key = selection_key(sel, floor, slack_cap);
    key.slack >= 0 && (floor <= 0 || key.has_colony)
}

/// `sel` picks exactly one choice from each planet's menu.
pub open spec fn is_selection(menus: Seq<Seq<FloorChoice>>, sel: Seq<FloorChoice>) -> bool {
    &&& sel.len() == menus.len()
    &&& forall|k: int| 0 <= k < sel.len() ==> #[trigger] menus[k].contains(sel[k])
}

/// The menus as mathematical sequences.
pub open spec fn menus_of(choices: Seq<Vec<FloorChoice>>) -> Seq<Seq<FloorChoice>> {
    Seq::new(choices.len(), |k: int| choices[k]@)
}

/// A DP key packed into one integer, the key of the DP table: twice the
/// slack's offset from `i32::MIN`, plus one when something is colonized.
pub open spec fn key_code(key: FloorKey) -> int {
    (key.slack - i32::MIN) * 2 + if key.has_colony {
        1int
    } else {
        0int
    }
}

/// The DP key that a table code stands for.
pub open spec fn code_key(code: u64) -> FloorKey {
    FloorKey { slack: code / 2 + i32::MIN, has_colony: code % 2 == 1 }
}

/// Some entry of `table` stands for `key` with an income of at least `income`.
pub open spec fn map_covers(table: Map<u64, i64>, key: FloorKey, income: int) -> bool {
    exists|c: u64| #[trigger] table.contains_key(c) && code_key(c) == key && income <= table[c]
}

/// Each entry of the DP table is a valid code, reached by its witness
/// selection with exactly its income.
pub open spec fn entries_witnessed(
    table: Map<u64, i64>,
    wit: Map<u64, Seq<FloorChoice>>,
    menus: Seq<Seq<FloorChoice>>,
    floor: int,
    slack_cap: int,
) -> bool {
    forall|c: u64| #[trigger]
        table.contains_key(c) ==> {
            &&& c < 0x2_0000_0000
            &&& wit.contains_key(c)
            &&& is_selection(menus, wit[c])
            &&& selection_key(wit[c], floor, slack_cap) == code_key(c)
            &&& selection_income(wit[c]) == table[c]
        }
}

/// The DP table after some planets: its entries are witnessed, and every
/// selection over those planets is covered.
pub open spec fn table_valid(
    table: Map<u64, i64>,
    wit: Map<u64, Seq<FloorChoice>>,
    menus: Seq<Seq<FloorChoice>>,
    floor: int,
    slack_cap: int,
) -> bool {
    &&& entries_witnessed(table, wit, menus, floor, slack_cap)
    &&& forall|sel: Seq<FloorChoice>|
        is_selection(menus, sel) ==> map_covers(
            table,
            #[trigger] selection_key(sel, floor, slack_cap),
            selection_income(sel),
        )
}

/// The table code of a key.
fn pack_key(slack: i32, has_colony: bool) -> (c: u64)
    ensures
        c == key_code(FloorKey { slack: slack as int, has_colony }),
        c < 0x2_0000_0000,
        code_key(c) == (FloorKey { slack: slack as int, has_colony }),
{
    let off: u64 = (slack as i64 - i32::MIN as i64) as u64;
    let c: u64 = off * 2 + if has_colony {
        1
    } else {
        0
    };
    assert(c / 2 == off && c % 2 == (if has_colony { 1u64 } else { 0u64 }));
    c
}

/// The key a table code stands for.
fn unpack_key(c: u64) -> (r: (i32, bool))
    requires
        c < 0x2_0000_0000,
    ensures
        (FloorKey { slack: r.0 as int, has_colony: r.1 }) == code_key(c),
{
    let s: i64 = (c / 2) as i64 + i32::MIN as i64;
    (s as i32, c % 2 == 1)
}

/// The key after one step, computed on machine integers.
fn step_key(slack: i32, has_colony: bool, c: &FloorChoice, floor: i32, slack_cap: i32) -> (r: (
    i32,
    bool,
))
    ensures
        floor_step(FloorKey { slack: slack as int, has_colony }, *c, floor as int, slack_cap as int)
            == (FloorKey { slack: r.0 as int, has_colony: r.1 }),
{
    if c.colonized {
        let d: i64 = c.metric as i64 - floor as i64;
        let d: i64 = if d > i32::MAX as i64 {
            i32::MAX as i64
        } else if d < i32::MIN as i64 {
            i32::MIN as i64
        } else {
            d
        };
        let s: i64 = slack as i64 + d;
        let s: i64 = if s > i32::MAX as i64 {
            i32::MAX as i64
        } else if s < i32::MIN as i64 {
            i32::MIN as i64
        } else {
            s
        };
        let s: i32 = s as i32;
        (if s < slack_cap { s } else { slack_cap }, true)
    } else {
        (slack, has_colony)
    }
}


/// The key meets the floor: non-negative slack and, for a positive floor,
/// something colonized.
pub open spec fn key_feasible(key: FloorKey, floor: int) -> bool {
    key.slack >= 0 && (floor <= 0 || key.has_colony)
}

/// Exact integer DP for one average-metric floor. Each planet contributes one
/// menu choice (a colonized plan, or a skip where the menu offers one).
/// Colonized choices add slack `metric - floor`; the system average meets the
/// floor when the final slack is non-negative (and, for a positive floor,
/// something is colonized). Positive slack is capped at `slack_cap`. Returns
/// the highest total income over the selections that meet the floor, or
/// `None` when none does.
#[verifier::spinoff_prover]
#[verifier::rlimit(80)]
pub fn max_floor_income(choices_by_planet: &[Vec<FloorChoice>], floor: i32, slack_cap: i32) -> (r:
    Option<i64>)
    ensures
        ({
            let menus = menus_of(choices_by_planet@);
            match r {
                None => forall|sel: Seq<FloorChoice>|
                    is_selection(menus, sel) ==> !selection_feasible(
                        sel,
                        floor as int,
                        slack_cap as int,
                    ),
                Some(v) => {
                    &&& exists|sel: Seq<FloorChoice>|
                        is_selection(menus, sel) && selection_feasible(
                            sel,
                            floor as int,
                            slack_cap as int,
                        ) && selection_income(sel) == v
                    &&& forall|sel: Seq<FloorChoice>|
                        is_selection(menus, sel) && selection_feasible(
                            sel,
                            floor as int,
                            slack_cap as int,
                        ) ==> selection_income(sel) <= v
                },
            }
        }),
{
    broadcast use vstd::std_specs::hash::group_hash_axioms;

    let ghost all_menus = menus_of(choices_by_planet@);
    let ghost fl = floor as int;
    let ghost cap = slack_cap as int;
    let start = pack_key(0, false);
    let mut states: HashMap<u64, i64> = HashMap::new();
    states.insert(start, 0);
    let ghost mut wit: Map<u64, Seq<FloorChoice>> = Map::empty().insert(start, Seq::empty());
    proof {
        assert(all_menus.take(0) =~= Seq::<Seq<FloorChoice>>::empty());
        assert(is_selection(all_menus.take(0), Seq::<FloorChoice>::empty()));
        assert forall|sel: Seq<FloorChoice>| is_selection(all_menus.take(0), sel) implies map_covers(
            states@,
            #[trigger] selection_key(sel, fl, cap),
            selection_income(sel),
        ) by {
            assert(sel =~= Seq::<FloorChoice>::empty());
            assert(states@.contains_key(start));
        }
    }
    let mut p: usize = 0;
    while p < choices_by_planet.len()
        invariant
            0 <= p <= choices_by_planet@.len(),
            all_menus == menus_of(choices_by_planet@),
            fl == floor as int,
            cap == slack_cap as int,
            table_valid(states@, wit, all_menus.take(p as int), fl, cap),
        decreases choices_by_planet@.len() - p,
    {
        let choices = &choices_by_planet[p];
        let ghost menu = choices@;
        let ghost prev_menus = all_menus.take(p as int);
        let ghost next_menus = all_menus.take(p + 1);
        proof {
            assert(next_menus =~= prev_menus.push(menu));
        }
        let mut next: HashMap<u64, i64> = HashMap::new();
        let ghost mut next_wit: Map<u64, Seq<FloorChoice>> = Map::empty();
        let ghost all = vstd::std_specs::hash::spec_hash_map_iter(&states).remaining();
        let ghost mut count: int = 0;
        for (code, income) in it: states.iter()
            invariant
                it.seq() == all,
                count == it.index(),
                all == vstd::std_specs::hash::spec_hash_map_iter(&states).remaining(),
                menu == choices@,
                next_menus == prev_menus.push(menu),
                fl == floor as int,
                cap == slack_cap as int,
                table_valid(states@, wit, prev_menus, fl, cap),
                entries_witnessed(next@, next_wit, next_menus, fl, cap),
                forall|a: int, c: int|
                    0 <= a < count && 0 <= c < menu.len() ==> map_covers(
                        next@,
                        #[trigger] floor_step(code_key(*all[a].0), menu[c], fl, cap),
                        sat_add_i64(*all[a].1 as int, menu[c].spec_income()),
                    ),
        {
            let code: u64 = *code;
            let income: i64 = *income;
            proof {
                assert(all[count] == (&code, &income));
                assert(states@.contains_key(code) && states@[code] == income);
            }
            let (slack, has_colony) = unpack_key(code);
            let ghost base = wit[code];
            let mut j: usize = 0;
            while j < choices.len()
                invariant
                    0 <= count < all.len(),
                    *all[count].0 == code,
                    *all[count].1 == income,
                    states@.contains_key(code),
                    states@[code] == income,
                    (FloorKey { slack: slack as int, has_colony }) == code_key(code),
                    base == wit[code],
                    0 <= j <= menu.len(),
                    menu == choices@,
                    next_menus == prev_menus.push(menu),
                    fl == floor as int,
                    cap == slack_cap as int,
                    table_valid(states@, wit, prev_menus, fl, cap),
                    entries_witnessed(next@, next_wit, next_menus, fl, cap),
                    forall|a: int, c: int|
                        ((0 <= a < count && 0 <= c < menu.len()) || (a == count && 0 <= c < j))
                            ==> map_covers(
                            next@,
                            #[trigger] floor_step(code_key(*all[a].0), menu[c], fl, cap),
                            sat_add_i64(*all[a].1 as int, menu[c].spec_income()),
                        ),
                decreases menu.len() - j,
            {
                let choice = &choices[j];
                proof {
                    use_type_invariant(choice);
                }
                let (new_slack, new_has_colony) = step_key(
                    slack,
                    has_colony,
                    choice,
                    floor,
                    slack_cap,
                );
                let new_income: i64 = if income > i64::MAX - choice.income {
                    i64::MAX
                } else {
                    income + choice.income
                };
                let nc = pack_key(new_slack, new_has_colony);
                let ghost new_sel = base.push(menu[j as int]);
                proof {
                    assert(new_sel.drop_last() =~= base);
                    assert(selection_key(new_sel, fl, cap) == code_key(nc));
                    assert(selection_income(new_sel) == new_income as int);
                    assert forall|k: int| 0 <= k < new_sel.len() implies #[trigger] next_menus[k].contains(
                        new_sel[k],
                    ) by {
                        if k < new_sel.len() - 1 {
                            assert(prev_menus[k].contains(base[k]));
                        } else {
                            assert(menu[j as int] == new_sel[k]);
                        }
                    }
                }
                let ghost old_next = next@;
                let keep = match next.get(&nc) {
                    Some(old) => *old >= new_income,
                    None => false,
                };
                if !keep {
                    next.insert(nc, new_income);
                    proof {
                        next_wit = next_wit.insert(nc, new_sel);
                    }
                }
                proof {
                    assert forall|a: int, c: int|
                        ((0 <= a < count && 0 <= c < menu.len()) || (a == count && 0 <= c < j + 1))
                            implies map_covers(
                        next@,
                        #[trigger] floor_step(code_key(*all[a].0), menu[c], fl, cap),
                        sat_add_i64(*all[a].1 as int, menu[c].spec_income()),
                    ) by {
                        if a == count && c == j {
                            assert(next@.contains_key(nc));
                        } else {
                            let w = choose|w: u64|
                                #[trigger] old_next.contains_key(w) && code_key(w) == floor_step(
                                    code_key(*all[a].0),
                                    menu[c],
                                    fl,
                                    cap,
                                ) && sat_add_i64(*all[a].1 as int, menu[c].spec_income())
                                    <= old_next[w];
                            assert(next@.contains_key(w));
                        }
                    }
                }
                j = j + 1;
            }
            proof {
                count = count + 1;
            }
        }
        proof {
            assert forall|sel: Seq<FloorChoice>| is_selection(next_menus, sel) implies map_covers(
                next@,
                #[trigger] selection_key(sel, fl, cap),
                selection_income(sel),
            ) by {
                let pre = sel.drop_last();
                assert(is_selection(prev_menus, pre)) by {
                    assert forall|k: int| 0 <= k < pre.len() implies #[trigger] prev_menus[k].contains(
                        pre[k],
                    ) by {
                        assert(next_menus[k].contains(sel[k]));
                    }
                }
                assert(next_menus[pre.len() as int].contains(sel[pre.len() as int]));
                let c = choose|c: int| 0 <= c < menu.len() && menu[c] == sel.last();
                assert(map_covers(states@, selection_key(pre, fl, cap), selection_income(pre)));
                let k = choose|k: u64|
                    #[trigger] states@.contains_key(k) && code_key(k) == selection_key(pre, fl, cap)
                        && selection_income(pre) <= states@[k];
                assert(all.contains((&k, &states@[k])));
                let a = choose|a: int| 0 <= a < all.len() && all[a] == (&k, &states@[k]);
                assert(map_covers(
                    next@,
                    floor_step(code_key(*all[a].0), menu[c], fl, cap),
                    sat_add_i64(*all[a].1 as int, menu[c].spec_income()),
                ));
                assert(sel =~= pre.push(sel.last()));
            }
        }
        states = next;
        proof {
            wit = next_wit;
        }
        p = p + 1;
    }
    proof {
        assert(all_menus.take(p as int) =~= all_menus);
    }
    let ghost all = vstd::std_specs::hash::spec_hash_map_iter(&states).remaining();
    let ghost mut count: int = 0;
    let mut best: Option<i64> = None;
    let ghost mut best_code: u64 = 0;
    for (code, income) in it: states.iter()
        invariant
            it.seq() == all,
            count == it.index(),
            all == vstd::std_specs::hash::spec_hash_map_iter(&states).remaining(),
            fl == floor as int,
            cap == slack_cap as int,
            table_valid(states@, wit, all_menus, fl, cap),
            match best {
                None => forall|a: int| 0 <= a < count ==> !key_feasible(code_key(*all[a].0), fl),
                Some(v) => {
                    &&& states@.contains_key(best_code)
                    &&& states@[best_code] == v
                    &&& key_feasible(code_key(best_code), fl)
                    &&& forall|a: int|
                        0 <= a < count && key_feasible(code_key(*all[a].0), fl) ==> *all[a].1 <= v
                },
            },
    {
        let code: u64 = *code;
        let income: i64 = *income;
        proof {
            assert(all[count] == (&code, &income));
            assert(states@.contains_key(code) && states@[code] == income);
        }
        let feasible = code / 2 >= 0x8000_0000 && (floor <= 0 || code % 2 == 1);
        assert(feasible == key_feasible(code_key(code), fl));
        if feasible {
            let improves = match best {
                Some(v) => income > v,
                None => true,
            };
            if improves {
                best = Some(income);
                proof {
                    best_code = code;
                }
            }
        }
        proof {
            count = count + 1;
        }
    }
    proof {
        assert(count == all.len());
        match best {
            None => {
                assert forall|sel: Seq<FloorChoice>| is_selection(all_menus, sel) implies !selection_feasible(
                    sel,
                    fl,
                    cap,
                ) by {
                    assert(map_covers(states@, selection_key(sel, fl, cap), selection_income(sel)));
                    let k = choose|k: u64|
                        #[trigger] states@.contains_key(k) && code_key(k) == selection_key(sel, fl, cap)
                            && selection_income(sel) <= states@[k];
                    assert(all.contains((&k, &states@[k])));
                    let a = choose|a: int| 0 <= a < all.len() && all[a] == (&k, &states@[k]);
                    assert(!key_feasible(code_key(*all[a].0), fl));
                }
            },
            Some(v) => {
                let w = wit[best_code];
                assert(is_selection(all_menus, w) && selection_feasible(w, fl, cap)
                    && selection_income(w) == v);
                assert forall|sel: Seq<FloorChoice>|
                    is_selection(all_menus, sel) && selection_feasible(
                        sel,
                        fl,
                        cap,
                    ) implies selection_income(sel) <= v by {
                    assert(map_covers(states@, selection_key(sel, fl, cap), selection_income(sel)));
                    let k = choose|k: u64|
                        #[trigger] states@.contains_key(k) && code_key(k) == selection_key(sel, fl, cap)
                            && selection_income(sel) <= states@[k];
                    assert(all.contains((&k, &states@[k])));
                    let a = choose|a: int| 0 <= a < all.len() && all[a] == (&k, &states@[k]);
                    assert(key_feasible(code_key(*all[a].0), fl));
                }
            },
        }
    }
    best
}

/// The highest stability floor the menus go up to.
pub const MAX_STABILITY_FLOOR: i32 = 10;

/// The index of the top defense bucket: the five defense floors run from 0
/// to 1000 in steps of 250.
pub const LAST_DEFENSE_BUCKET: usize = 4;

/// The metric a defense-menu entry reaches for bucket `b`: the bucket's
/// number plus one, and for the top bucket a value so large that it meets
/// every floor.
pub open spec fn defense_metric(b: int, last_bucket: int) -> int {
    if b == last_bucket {
        i32::MAX / 4
    } else {
        b + 1
    }
}

/// Menu entry `e` is the colonized choice worth `income` that reaches
/// `metric`.
pub open spec fn is_colonized_choice(e: FloorChoice, income: i64, metric: int) -> bool {
    &&& e.spec_colonized()
    &&& e.spec_income() == if income > 0 {
        income as int
    } else {
        0
    }
    &&& e.spec_metric() == metric
}

/// A planet solved at stability floor `stability` reached stability
/// `reached` with `income`: it covers every floor from `stability` up to what
/// it reached (at most the highest floor), and the menu gets one entry per
/// covered floor. Returns the next floor to solve.
pub fn push_stability_choices(choices: &mut Vec<FloorChoice>, income: i64, stability: i32, reached: i32) -> (next: i32)
    requires
        0 <= stability <= MAX_STABILITY_FLOOR,
    ensures
        ({
            let covered = if reached < stability {
                stability as int
            } else if reached > MAX_STABILITY_FLOOR {
                MAX_STABILITY_FLOOR as int
            } else {
                reached as int
            };
            &&& next == covered + 1
            &&& final(choices)@.len() == old(choices)@.len() + (covered - stability + 1)
            &&& forall|k: int| 0 <= k < old(choices)@.len() ==> #[trigger] final(choices)@[k] == old(choices)@[k]
            &&& forall|k: int|
                0 <= k <= covered - stability ==> is_colonized_choice(
                    #[trigger] final(choices)@[old(choices)@.len() + k],
                    income,
                    stability + k,
                )
        }),
{
    let covered: i32 = if reached < stability {
        stability
    } else if reached > MAX_STABILITY_FLOOR {
        MAX_STABILITY_FLOOR
    } else {
        reached
    };
    let ghost start = choices@.len();
    let mut floor: i32 = stability;
    while floor <= covered
        invariant
            stability <= floor <= covered + 1,
            covered <= MAX_STABILITY_FLOOR,
            choices@.len() == start + (floor - stability),
            start == old(choices)@.len(),
            forall|k: int| 0 <= k < start ==> #[trigger] choices@[k] == old(choices)@[k],
            forall|k: int|
                0 <= k < floor - stability ==> is_colonized_choice(
                    #[trigger] choices@[start + k],
                    income,
                    stability + k,
                ),
        decreases covered + 1 - floor,
    {
        choices.push(FloorChoice::colonized(income, floor));
        floor = floor + 1;
    }
    covered + 1
}

/// A planet solved at defense bucket `bucket` reached bucket `reached` with
/// `income`: it covers every bucket from `bucket` up to what it reached (at
/// most the top one), and the menu gets one entry per covered bucket, with
/// that bucket's metric. Returns the next bucket to solve.
pub fn push_defense_choices(
    choices: &mut Vec<FloorChoice>,
    income: i64,
    bucket: usize,
    reached: usize,
) -> (next: usize)
    requires
        bucket <= LAST_DEFENSE_BUCKET,
    ensures
        ({
            let covered = if reached < bucket {
                bucket as int
            } else if reached > LAST_DEFENSE_BUCKET {
                LAST_DEFENSE_BUCKET as int
            } else {
                reached as int
            };
            &&& next == covered + 1
            &&& final(choices)@.len() == old(choices)@.len() + (covered - bucket + 1)
            &&& forall|k: int| 0 <= k < old(choices)@.len() ==> #[trigger] final(choices)@[k] == old(choices)@[k]
            &&& forall|k: int|
                0 <= k <= covered - bucket ==> is_colonized_choice(
                    #[trigger] final(choices)@[old(choices)@.len() + k],
                    income,
                    defense_metric(bucket + k, LAST_DEFENSE_BUCKET as int),
                )
        }),
{
    let covered: usize = if reached < bucket {
        bucket
    } else if reached > LAST_DEFENSE_BUCKET {
        LAST_DEFENSE_BUCKET
    } else {
        reached
    };
    let ghost start = choices@.len();
    let mut b: usize = bucket;
    while b <= covered
        invariant
            bucket <= b <= covered + 1,
            covered <= LAST_DEFENSE_BUCKET,
            choices@.len() == start + (b - bucket),
            start == old(choices)@.len(),
            forall|k: int| 0 <= k < start ==> #[trigger] choices@[k] == old(choices)@[k],
            forall|k: int|
                0 <= k < b - bucket ==> is_colonized_choice(
                    #[trigger] choices@[start + k],
                    income,
                    defense_metric(bucket + k, LAST_DEFENSE_BUCKET as int),
                ),
        decreases covered + 1 - b,
    {
        let metric: i32 = if b == LAST_DEFENSE_BUCKET {
            i32::MAX / 4
        } else {
            b as i32 + 1
        };
        choices.push(FloorChoice::colonized(income, metric));
        b = b + 1;
    }
    covered + 1
}

} // verus!
