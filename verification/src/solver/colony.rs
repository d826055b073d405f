use vstd::prelude::*;

use std::collections::HashMap;

use crate::constants::{item_code, ColonyItem, FacilityType};
use crate::solver::reserves::{count_of, counts_positive, items_after_add, items_after_remove, Reserves};
use crate::solver::state::Action;

verus! {

/// One built facility: its type, whether a story-point improvement was
/// bought for it, whether it runs an alpha core, and the item installed in
/// it.
#[derive(Debug, Clone, Copy, PartialEq, Eq, Structural)]
pub struct FacilityState {
    pub kind: FacilityType,
    pub improved: bool,
    pub alpha_core: bool,
    pub item: Option<ColonyItem>,
}

/// The decisions taken on one planet.
#[derive(Debug)]
pub struct PlanetState {
    pub has_colony: bool,
    pub free_port: bool,
    pub hazard_pay: bool,
    /// The administrator is an alpha core rather than the base one.
    pub alpha_admin: bool,
    pub facilities: Vec<FacilityState>,
}

/// A planet's decisions as plain values.
pub struct PlanetView {
    pub has_colony: bool,
    pub free_port: bool,
    pub hazard_pay: bool,
    pub alpha_admin: bool,
    pub facilities: Seq<FacilityState>,
}

impl View for PlanetState {
    type V = PlanetView;

    open spec fn view(&self) -> PlanetView {
        PlanetView {
            has_colony: self.has_colony,
            free_port: self.free_port,
            hazard_pay: self.hazard_pay,
            alpha_admin: self.alpha_admin,
            facilities: self.facilities@,
        }
    }
}

/// The counted part of a search state: what the player holds, what each
/// planet has been given, whether the makeshift relay stands, and the
/// actions taken so far. Credits and the month-by-month economy are floating
/// point and are not part of it.
pub struct ColonyState {
    pub reserves: Reserves,
    pub planets: HashMap<u64, PlanetState>,
    pub makeshift_comm_relay: bool,
    pub action_log: Vec<Action>,
}

/// A search state as plain values.
pub struct ColonyView {
    pub story_points: u32,
    pub alpha_cores: u32,
    pub items: Map<u64, u32>,
    pub relay: bool,
    pub planets: Map<u64, PlanetView>,
    pub log: Seq<Action>,
}

impl View for ColonyState {
    type V = ColonyView;

    open spec fn view(&self) -> ColonyView {
        ColonyView {
            story_points: self.reserves.story_point_count(),
            alpha_cores: self.reserves.alpha_core_count(),
            items: self.reserves.item_counts(),
            relay: self.makeshift_comm_relay,
            planets: self.planets@.map_values(|p: PlanetState| p@),
            log: self.action_log@,
        }
    }
}

/// `2` to the power `n`.
pub open spec fn two_pow(n: nat) -> nat
    decreases n,
{
    if n == 0 {
        1
    } else {
        2 * two_pow((n - 1) as nat)
    }
}

/// The index of the first facility of type `ft`, or the length when there
/// is none.
pub open spec fn first_index(fs: Seq<FacilityState>, ft: FacilityType) -> int
    decreases fs.len(),
{
    if fs.len() == 0 {
        0
    } else if fs[0].kind == ft {
        0
    } else {
        1 + first_index(fs.drop_first(), ft)
    }
}

/// The planet has a facility of type `ft`.
pub open spec fn has_facility(p: PlanetView, ft: FacilityType) -> bool {
    first_index(p.facilities, ft) < p.facilities.len()
}

/// The facility of type `ft` on the planet (meaningful when it has one).
pub open spec fn facility_of(p: PlanetView, ft: FacilityType) -> FacilityState {
    p.facilities[first_index(p.facilities, ft)]
}

/// How many facilities of the planet are improved.
pub open spec fn improved_count(fs: Seq<FacilityState>) -> nat
    decreases fs.len(),
{
    if fs.len() == 0 {
        0
    } else {
        improved_count(fs.drop_last()) + if fs.last().improved {
            1nat
        } else {
            0nat
        }
    }
}

/// The story points the next improvement on a planet costs: the `n`-th
/// improvement of a planet costs `2^n`.
pub open spec fn improvement_cost(p: PlanetView) -> nat {
    two_pow(improved_count(p.facilities) + 1)
}

/// A facility freshly built: no improvement, core or item.
pub open spec fn new_facility(ft: FacilityType) -> FacilityState {
    FacilityState { kind: ft, improved: false, alpha_core: false, item: None }
}

/// The planet with the facility of type `ft` replaced by `f`.
pub open spec fn with_facility(p: PlanetView, ft: FacilityType, f: FacilityState) -> PlanetView {
    PlanetView { facilities: p.facilities.update(first_index(p.facilities, ft), f), ..p }
}

/// The state with planet `h` replaced by `p`.
pub open spec fn with_planet(s: ColonyView, h: u64, p: PlanetView) -> ColonyView {
    ColonyView { planets: s.planets.insert(h, p), ..s }
}

/// What taking an action needs: every planet action needs its planet, and
/// improvements, cores and items need their facility. An improvement's cost `2^n` must fit
/// in 32 bits.
pub open spec fn action_defined(s: ColonyView, a: Action) -> bool {
    match a {
        Action::AddFacility(h, _) | Action::SetFreePort(h, _) | Action::SetHazardPay(h, _)
        | Action::UpgradeAdmin(h) | Action::Colonize(h) => s.planets.contains_key(h),
        Action::AddImprovement(h, ft) => s.planets.contains_key(h) && has_facility(
            s.planets[h],
            ft,
        ) && improved_count(s.planets[h].facilities) + 1 < 32,
        Action::AddAlphaCore(h, ft) | Action::InstallItem(h, ft, _) => s.planets.contains_key(h)
            && has_facility(s.planets[h], ft),
        Action::BuildMakeshiftCommRelay | Action::Wait(_) => true,
    }
}

/// The state after taking `a`: the action is logged; a facility is built
/// unless one of its type stands; an improvement, core or item is paid for
/// when it can be and installed; the free port, hazard pay, administrator,
/// relay or colony is set. Waiting changes nothing counted here.
pub open spec fn apply_spec(s: ColonyView, a: Action) -> ColonyView {
    let t = ColonyView { log: s.log.push(a), ..s };
    match a {
        Action::AddFacility(h, ft) => if has_facility(s.planets[h], ft) {
            t
        } else {
            let p = s.planets[h];
            with_planet(t, h, PlanetView { facilities: p.facilities.push(new_facility(ft)), ..p })
        },
        Action::AddImprovement(h, ft) => {
            let p = s.planets[h];
            let cost = improvement_cost(p);
            let paid = if s.story_points >= cost {
                (s.story_points - cost) as u32
            } else {
                s.story_points
            };
            with_planet(
                ColonyView { story_points: paid, ..t },
                h,
                with_facility(p, ft, FacilityState { improved: true, ..facility_of(p, ft) }),
            )
        },
        Action::AddAlphaCore(h, ft) => {
            let p = s.planets[h];
            let cores = if s.alpha_cores >= 1 {
                (s.alpha_cores - 1) as u32
            } else {
                s.alpha_cores
            };
            with_planet(
                ColonyView { alpha_cores: cores, ..t },
                h,
                with_facility(p, ft, FacilityState { alpha_core: true, ..facility_of(p, ft) }),
            )
        },
        Action::InstallItem(h, ft, item) => {
            let p = s.planets[h];
            with_planet(
                ColonyView { items: items_after_remove(s.items, item_code(item)), ..t },
                h,
                with_facility(p, ft, FacilityState { item: Some(item), ..facility_of(p, ft) }),
            )
        },
        Action::SetFreePort(h, b) => with_planet(t, h, PlanetView { free_port: b, ..s.planets[h] }),
        Action::SetHazardPay(h, b) => with_planet(t, h, PlanetView { hazard_pay: b, ..s.planets[h] }),
        Action::UpgradeAdmin(h) => {
            let cores = if s.alpha_cores >= 1 {
                (s.alpha_cores - 1) as u32
            } else {
                s.alpha_cores
            };
            with_planet(ColonyView { alpha_cores: cores, ..t }, h, PlanetView { alpha_admin: true, ..s.planets[h] })
        },
        Action::BuildMakeshiftCommRelay => ColonyView { relay: true, ..t },
        Action::Colonize(h) => with_planet(t, h, PlanetView { has_colony: true, ..s.planets[h] }),
        Action::Wait(_) => t,
    }
}

/// What undoing the last logged action needs: its planet and facility, and
/// room for what is refunded.
pub open spec fn undo_defined(s: ColonyView) -> bool {
    s.log.len() > 0 ==> match s.log.last() {
        Action::AddFacility(h, _) | Action::SetFreePort(h, _) | Action::SetHazardPay(h, _)
        | Action::Colonize(h) => s.planets.contains_key(h),
        Action::AddImprovement(h, ft) => s.planets.contains_key(h) && has_facility(
            s.planets[h],
            ft,
        ) && improved_count(s.planets[h].facilities) < 32 && s.story_points + two_pow(
            improved_count(s.planets[h].facilities),
        ) <= u32::MAX,
        Action::AddAlphaCore(h, ft) => s.planets.contains_key(h) && has_facility(s.planets[h], ft)
            && s.alpha_cores + 1 <= u32::MAX,
        Action::InstallItem(h, ft, item) => s.planets.contains_key(h) && has_facility(
            s.planets[h],
            ft,
        ) && count_of(s.items, item_code(item)) < u32::MAX,
        Action::UpgradeAdmin(h) => s.planets.contains_key(h) && s.alpha_cores + 1 <= u32::MAX,
        Action::BuildMakeshiftCommRelay | Action::Wait(_) => true,
    }
}

/// The state after undoing the last logged action: the facility is torn
/// down, the improvement, core or item is removed and refunded (an
/// improvement refunds what the last one cost), the free port or hazard pay
/// is set back the other way, the administrator, relay or colony is
/// removed. With nothing logged, nothing changes.
pub open spec fn undo_spec(s: ColonyView) -> ColonyView {
    if s.log.len() == 0 {
        s
    } else {
        let t = ColonyView { log: s.log.drop_last(), ..s };
        match s.log.last() {
            Action::AddFacility(h, ft) => {
                let p = s.planets[h];
                if has_facility(p, ft) {
                    with_planet(
                        t,
                        h,
                        PlanetView { facilities: p.facilities.remove(first_index(p.facilities, ft)), ..p },
                    )
                } else {
                    t
                }
            },
            Action::AddImprovement(h, ft) => {
                let p = s.planets[h];
                with_planet(
                    ColonyView {
                        story_points: (s.story_points + two_pow(improved_count(p.facilities))) as u32,
                        ..t
                    },
                    h,
                    with_facility(p, ft, FacilityState { improved: false, ..facility_of(p, ft) }),
                )
            },
            Action::AddAlphaCore(h, ft) => {
                let p = s.planets[h];
                with_planet(
                    ColonyView { alpha_cores: (s.alpha_cores + 1) as u32, ..t },
                    h,
                    with_facility(p, ft, FacilityState { alpha_core: false, ..facility_of(p, ft) }),
                )
            },
            Action::InstallItem(h, ft, item) => {
                let p = s.planets[h];
                with_planet(
                    ColonyView { items: items_after_add(s.items, item_code(item)), ..t },
                    h,
                    with_facility(p, ft, FacilityState { item: None, ..facility_of(p, ft) }),
                )
            },
            Action::SetFreePort(h, b) => with_planet(t, h, PlanetView { free_port: !b, ..s.planets[h] }),
            Action::SetHazardPay(h, b) => with_planet(
                t,
                h,
                PlanetView { hazard_pay: !b, ..s.planets[h] },
            ),
            Action::UpgradeAdmin(h) => with_planet(
                ColonyView { alpha_cores: (s.alpha_cores + 1) as u32, ..t },
                h,
                PlanetView { alpha_admin: false, ..s.planets[h] },
            ),
            Action::BuildMakeshiftCommRelay => ColonyView { relay: false, ..t },
            Action::Colonize(h) => with_planet(t, h, PlanetView { has_colony: false, ..s.planets[h] }),
            Action::Wait(_) => t,
        }
    }
}

/// The action really changes the state, so that undoing it can restore
/// it: what it builds, installs or switches on is not there yet, and what
/// it pays with is held.
pub open spec fn effective(s: ColonyView, a: Action) -> bool {
    &&& action_defined(s, a)
    &&& counts_positive(s.items)
    &&& match a {
        Action::AddFacility(h, ft) => !has_facility(s.planets[h], ft),
        Action::AddImprovement(h, ft) => !facility_of(s.planets[h], ft).improved && s.story_points
            >= improvement_cost(s.planets[h]),
        Action::AddAlphaCore(h, ft) => !facility_of(s.planets[h], ft).alpha_core && s.alpha_cores
            >= 1,
        Action::InstallItem(h, ft, item) => facility_of(s.planets[h], ft).item is None && count_of(
            s.items,
            item_code(item),
        ) >= 1,
        Action::SetFreePort(h, b) => s.planets[h].free_port == !b,
        Action::SetHazardPay(h, b) => s.planets[h].hazard_pay == !b,
        Action::UpgradeAdmin(h) => !s.planets[h].alpha_admin && s.alpha_cores >= 1,
        Action::BuildMakeshiftCommRelay => !s.relay,
        Action::Colonize(h) => !s.planets[h].has_colony,
        Action::Wait(_) => true,
    }
}

proof fn lemma_first_index_bound(fs: Seq<FacilityState>, ft: FacilityType)
    ensures
        0 <= first_index(fs, ft) <= fs.len(),
        first_index(fs, ft) < fs.len() ==> fs[first_index(fs, ft)].kind == ft,
        forall|k: int| 0 <= k < first_index(fs, ft) ==> fs[k].kind != ft,
    decreases fs.len(),
{
    if fs.len() > 0 && fs[0].kind != ft {
        lemma_first_index_bound(fs.drop_first(), ft);
        assert forall|k: int| 0 <= k < first_index(fs, ft) implies fs[k].kind != ft by {
            if k > 0 {
                assert(fs[k] == fs.drop_first()[k - 1]);
            }
        }
    }
}

/// Changing a facility without changing its type keeps where the first of
/// each type stands.
proof fn lemma_first_index_update(fs: Seq<FacilityState>, i: int, f: FacilityState, ft: FacilityType)
    requires
        0 <= i < fs.len(),
        f.kind == fs[i].kind,
    ensures
        first_index(fs.update(i, f), ft) == first_index(fs, ft),
    decreases fs.len(),
{
    if i > 0 {
        assert(fs.update(i, f).drop_first() =~= fs.drop_first().update(i - 1, f));
        lemma_first_index_update(fs.drop_first(), i - 1, f, ft);
    } else {
        assert(fs.update(i, f).drop_first() =~= fs.drop_first());
    }
}

/// Appending a facility of a type not yet present puts the first of that
/// type last.
proof fn lemma_first_index_push(fs: Seq<FacilityState>, f: FacilityState)
    requires
        first_index(fs, f.kind) == fs.len(),
    ensures
        first_index(fs.push(f), f.kind) == fs.len(),
    decreases fs.len(),
{
    if fs.len() > 0 {
        assert(fs.push(f).drop_first() =~= fs.drop_first().push(f));
        lemma_first_index_push(fs.drop_first(), f);
    }
}

/// Setting the improvement flag of one facility moves the count by one.
proof fn lemma_improved_count_update(fs: Seq<FacilityState>, i: int, f: FacilityState)
    requires
        0 <= i < fs.len(),
    ensures
        improved_count(fs.update(i, f)) + (if fs[i].improved {
            1int
        } else {
            0int
        }) == improved_count(fs) + (if f.improved {
            1int
        } else {
            0int
        }),
    decreases fs.len(),
{
    let u = fs.update(i, f);
    if i < fs.len() - 1 {
        assert(u.drop_last() =~= fs.drop_last().update(i, f));
        lemma_improved_count_update(fs.drop_last(), i, f);
    } else {
        assert(u.drop_last() =~= fs.drop_last());
    }
}

proof fn lemma_two_pow_monotone(n: nat, m: nat)
    requires
        n <= m,
    ensures
        two_pow(n) <= two_pow(m),
        two_pow(n) >= 1,
    decreases m,
{
    if n < m {
        lemma_two_pow_monotone(n, (m - 1) as nat);
    } else if n > 0 {
        lemma_two_pow_monotone((n - 1) as nat, (n - 1) as nat);
    }
}

proof fn lemma_two_pow_fits(n: nat)
    requires
        n < 32,
    ensures
        two_pow(n) <= 0x8000_0000,
{
    lemma_two_pow_monotone(n, 31);
    assert(two_pow(31) == 0x8000_0000) by {
        reveal_with_fuel(two_pow, 32);
    }
}

/// `2^n`.
fn two_pow_u32(n: u32) -> (r: u32)
    requires
        n < 32,
    ensures
        r == two_pow(n as nat),
{
    let mut r: u32 = 1;
    let mut i: u32 = 0;
    while i < n
        invariant
            i <= n < 32,
            r == two_pow(i as nat),
        decreases n - i,
    {
        proof {
            lemma_two_pow_fits((i + 1) as nat);
        }
        r = r * 2;
        i = i + 1;
    }
    r
}

/// Removing an item and giving it back restores the counts.
proof fn lemma_add_undoes_remove(items: Map<u64, u32>, code: u64)
    requires
        counts_positive(items),
        count_of(items, code) >= 1,
    ensures
        items_after_add(items_after_remove(items, code), code) == items,
{
    let removed = items_after_remove(items, code);
    if count_of(items, code) == 1 {
        assert(count_of(removed, code) == 0);
        assert(removed.insert(code, 1u32) =~= items);
    } else {
        assert(count_of(removed, code) == count_of(items, code) - 1);
        assert(removed.insert(code, (count_of(removed, code) + 1) as u32) =~= items);
    }
}

/// Law: undoing an action that really changed the state restores the state
/// exactly, log included; this is what lets a search undo its way back up
/// the tree.
pub proof fn lemma_undo_inverts_apply(s: ColonyView, a: Action)
    requires
        effective(s, a),
    ensures
        undo_defined(apply_spec(s, a)),
        undo_spec(apply_spec(s, a)) == s,
{
    let t = apply_spec(s, a);
    assert(t.log.last() == a);
    assert(t.log.drop_last() =~= s.log);
    match a {
        Action::AddFacility(h, ft) => {
            let p = s.planets[h];
            let f = new_facility(ft);
            lemma_first_index_bound(p.facilities, ft);
            lemma_first_index_push(p.facilities, f);
            let q = t.planets[h];
            assert(q.facilities =~= p.facilities.push(f));
            assert(first_index(q.facilities, ft) == p.facilities.len());
            assert(has_facility(q, ft));
            assert(q.facilities.remove(p.facilities.len() as int) =~= p.facilities);
            let back = PlanetView { facilities: q.facilities.remove(first_index(q.facilities, ft)), ..q };
            assert(back == p);
            assert(s.planets.insert(h, p) =~= s.planets);
            assert(undo_spec(t).planets =~= s.planets);
            assert(undo_spec(t) == with_planet(ColonyView { log: t.log.drop_last(), ..t }, h, back));
        },
        Action::AddImprovement(h, ft) => {
            let p = s.planets[h];
            lemma_first_index_bound(p.facilities, ft);
            let i = first_index(p.facilities, ft);
            let f = FacilityState { improved: true, ..p.facilities[i] };
            lemma_first_index_update(p.facilities, i, f, ft);
            lemma_improved_count_update(p.facilities, i, f);
            let q = t.planets[h];
            assert(q.facilities == p.facilities.update(i, f));
            assert(improved_count(q.facilities) == improved_count(p.facilities) + 1);
            lemma_two_pow_fits(improved_count(q.facilities));
            let g = FacilityState { improved: false, ..q.facilities[i] };
            assert(g == p.facilities[i]);
            assert(q.facilities.update(i, g) =~= p.facilities);
            assert(s.planets.insert(h, p) =~= s.planets);
            assert(undo_spec(t).planets =~= s.planets);
        },
        Action::AddAlphaCore(h, ft) => {
            let p = s.planets[h];
            lemma_first_index_bound(p.facilities, ft);
            let i = first_index(p.facilities, ft);
            let f = FacilityState { alpha_core: true, ..p.facilities[i] };
            lemma_first_index_update(p.facilities, i, f, ft);
            let q = t.planets[h];
            let g = FacilityState { alpha_core: false, ..q.facilities[i] };
            assert(g == p.facilities[i]);
            assert(q.facilities.update(i, g) =~= p.facilities);
            assert(s.planets.insert(h, p) =~= s.planets);
            assert(undo_spec(t).planets =~= s.planets);
        },
        Action::InstallItem(h, ft, item) => {
            let p = s.planets[h];
            lemma_first_index_bound(p.facilities, ft);
            let i = first_index(p.facilities, ft);
            let f = FacilityState { item: Some(item), ..p.facilities[i] };
            lemma_first_index_update(p.facilities, i, f, ft);
            let q = t.planets[h];
            let g = FacilityState { item: None, ..q.facilities[i] };
            assert(g == p.facilities[i]);
            assert(q.facilities.update(i, g) =~= p.facilities);
            assert(s.planets.insert(h, p) =~= s.planets);
            assert(undo_spec(t).planets =~= s.planets);
            lemma_add_undoes_remove(s.items, item_code(item));
            assert(count_of(t.items, item_code(item)) < u32::MAX);
        },
        Action::SetFreePort(h, _) | Action::SetHazardPay(h, _) | Action::UpgradeAdmin(h)
        | Action::Colonize(h) => {
            assert(s.planets.insert(h, s.planets[h]) =~= s.planets);
            assert(undo_spec(t).planets =~= s.planets);
        },
        Action::BuildMakeshiftCommRelay | Action::Wait(_) => {},
    }
}

/// The index of the first facility of type `ft` in `fs`, or its length.
fn find_facility(fs: &Vec<FacilityState>, ft: FacilityType) -> (i: usize)
    ensures
        i == first_index(fs@, ft),
{
    let mut i: usize = 0;
    proof {
        assert(fs@.skip(0) =~= fs@);
    }
    while i < fs.len()
        invariant
            0 <= i <= fs@.len(),
            first_index(fs@, ft) == i + first_index(fs@.skip(i as int), ft),
        decreases fs@.len() - i,
    {
        if fs[i].kind == ft {
            return i;
        }
        proof {
            assert(fs@.skip(i as int).drop_first() =~= fs@.skip(i + 1));
        }
        i = i + 1;
    }
    i
}

/// How many facilities in `fs` are improved.
fn count_improved(fs: &Vec<FacilityState>) -> (n: usize)
    ensures
        n == improved_count(fs@),
{
    let mut n: usize = 0;
    let mut i: usize = 0;
    while i < fs.len()
        invariant
            0 <= i <= fs@.len(),
            n == improved_count(fs@.take(i as int)),
            n <= i,
        decreases fs@.len() - i,
    {
        proof {
            assert(fs@.take(i + 1).drop_last() =~= fs@.take(i as int));
        }
        if fs[i].improved {
            n = n + 1;
        }
        i = i + 1;
    }
    proof {
        assert(fs@.take(i as int) =~= fs@);
    }
    n
}

/// A copy of a planet's decisions.
fn copy_planet(p: &PlanetState) -> (q: PlanetState)
    ensures
        q@ == p@,
{
    let mut facilities: Vec<FacilityState> = Vec::new();
    let mut i: usize = 0;
    while i < p.facilities.len()
        invariant
            0 <= i <= p.facilities@.len(),
            facilities@ == p.facilities@.take(i as int),
        decreases p.facilities@.len() - i,
    {
        facilities.push(p.facilities[i]);
        proof {
            assert(p.facilities@.take(i + 1) =~= p.facilities@.take(i as int).push(p.facilities@[i as int]));
        }
        i = i + 1;
    }
    proof {
        assert(p.facilities@.take(i as int) =~= p.facilities@);
    }
    PlanetState {
        has_colony: p.has_colony,
        free_port: p.free_port,
        hazard_pay: p.hazard_pay,
        alpha_admin: p.alpha_admin,
        facilities,
    }
}

/// The state after taking `acts` in order.
pub open spec fn apply_all(s: ColonyView, acts: Seq<Action>) -> ColonyView
    decreases acts.len(),
{
    if acts.len() == 0 {
        s
    } else {
        apply_all(apply_spec(s, acts[0]), acts.drop_first())
    }
}

/// Each action of `acts` really changes the state it is taken in.
pub open spec fn all_effective(s: ColonyView, acts: Seq<Action>) -> bool
    decreases acts.len(),
{
    acts.len() == 0 || (effective(s, acts[0]) && all_effective(apply_spec(s, acts[0]), acts.drop_first()))
}

/// The state after undoing `n` times.
pub open spec fn undo_times(s: ColonyView, n: nat) -> ColonyView
    decreases n,
{
    if n == 0 {
        s
    } else {
        undo_times(undo_spec(s), (n - 1) as nat)
    }
}

proof fn lemma_undo_times_last(s: ColonyView, n: nat)
    ensures
        undo_times(s, n + 1) == undo_spec(undo_times(s, n)),
    decreases n,
{
    if n > 0 {
        lemma_undo_times_last(undo_spec(s), (n - 1) as nat);
        assert(undo_times(s, n + 1) == undo_times(undo_spec(s), n));
    } else {
        assert(undo_times(undo_spec(s), 0) == undo_spec(s));
    }
}

/// Law: taking a sequence of actions, each of which really changes the
/// state, and then undoing as many times restores the state exactly, log
/// included; every one of those undos has what it needs. Undoing with an
/// empty log changes nothing.
pub proof fn lemma_undo_all_inverts_apply_all(s: ColonyView, acts: Seq<Action>)
    requires
        all_effective(s, acts),
    ensures
        undo_times(apply_all(s, acts), acts.len()) == s,
        forall|k: nat| k < acts.len() ==> undo_defined(#[trigger] undo_times(apply_all(s, acts), k)),
        s.log.len() == 0 ==> undo_spec(s) == s,
    decreases acts.len(),
{
    if acts.len() > 0 {
        let a = acts[0];
        let rest = acts.drop_first();
        let s1 = apply_spec(s, a);
        let x = apply_all(s, acts);
        assert(x == apply_all(s1, rest));
        lemma_undo_inverts_apply(s, a);
        lemma_undo_all_inverts_apply_all(s1, rest);
        lemma_undo_times_last(x, rest.len());
        assert(undo_times(x, rest.len()) == s1);
        assert forall|k: nat| k < acts.len() implies undo_defined(#[trigger] undo_times(x, k)) by {
            if k < rest.len() {
                assert(undo_defined(undo_times(apply_all(s1, rest), k)));
            }
        }
    }
}

impl ColonyState {
    /// A state with nothing done yet.
    pub fn new(reserves: Reserves, planets: HashMap<u64, PlanetState>, makeshift_comm_relay: bool) -> (s: Self)
        ensures
            s.reserves == reserves,
            s.planets@ == planets@,
            s.makeshift_comm_relay == makeshift_comm_relay,
            s.action_log@ == Seq::<Action>::empty(),
    {
        ColonyState { reserves, planets, makeshift_comm_relay, action_log: Vec::new() }
    }

    /// Give planet `h` the plan `q`.
    fn put_planet(&mut self, h: u64, q: PlanetState)
        ensures
            final(self)@ == with_planet(old(self)@, h, q@),
    {
        broadcast use vstd::std_specs::hash::group_hash_axioms;

        self.planets.insert(h, q);
        proof {
            assert(self@.planets =~= old(self)@.planets.insert(h, q@));
        }
    }

    /// Take `action`: log it and apply what it decides.
    pub fn apply_action(&mut self, action: &Action)
        requires
            action_defined(old(self)@, *action),
        ensures
            final(self)@ == apply_spec(old(self)@, *action),
    {
        broadcast use vstd::std_specs::hash::group_hash_axioms;

        self.action_log.push(*action);
        proof {
            assert(self@ == ColonyView { log: old(self)@.log.push(*action), ..old(self)@ });
        }
        match *action {
            Action::AddFacility(h, ft) => {
                let q = match self.planets.get(&h) {
                    Some(p) => {
                        if find_facility(&p.facilities, ft) < p.facilities.len() {
                            return;
                        }
                        let mut q = copy_planet(p);
                        q.facilities.push(FacilityState {
                            kind: ft,
                            improved: false,
                            alpha_core: false,
                            item: None,
                        });
                        q
                    },
                    None => {
                        return;
                    },
                };
                self.put_planet(h, q);
            },
            Action::AddImprovement(h, ft) => {
                let q = match self.planets.get(&h) {
                    Some(p) => {
                        let n = count_improved(&p.facilities);
                        let cost = two_pow_u32((n + 1) as u32);
                        let i = find_facility(&p.facilities, ft);
                        let mut q = copy_planet(p);
                        let f = q.facilities[i];
                        q.facilities.set(i, FacilityState { improved: true, ..f });
                        (q, cost)
                    },
                    None => {
                        return;
                    },
                };
                self.reserves.spend_story_points(q.1);
                self.put_planet(h, q.0);
            },
            Action::AddAlphaCore(h, ft) => {
                let q = match self.planets.get(&h) {
                    Some(p) => {
                        let i = find_facility(&p.facilities, ft);
                        let mut q = copy_planet(p);
                        let f = q.facilities[i];
                        q.facilities.set(i, FacilityState { alpha_core: true, ..f });
                        q
                    },
                    None => {
                        return;
                    },
                };
                self.reserves.spend_alpha_cores(1);
                self.put_planet(h, q);
            },
            Action::InstallItem(h, ft, item) => {
                let q = match self.planets.get(&h) {
                    Some(p) => {
                        let i = find_facility(&p.facilities, ft);
                        let mut q = copy_planet(p);
                        let f = q.facilities[i];
                        q.facilities.set(i, FacilityState { item: Some(item), ..f });
                        q
                    },
                    None => {
                        return;
                    },
                };
                self.reserves.remove_colony_item(&item);
                self.put_planet(h, q);
            },
            Action::SetFreePort(h, b) => {
                let q = match self.planets.get(&h) {
                    Some(p) => {
                        let mut q = copy_planet(p);
                        q.free_port = b;
                        q
                    },
                    None => {
                        return;
                    },
                };
                self.put_planet(h, q);
            },
            Action::SetHazardPay(h, b) => {
                let q = match self.planets.get(&h) {
                    Some(p) => {
                        let mut q = copy_planet(p);
                        q.hazard_pay = b;
                        q
                    },
                    None => {
                        return;
                    },
                };
                self.put_planet(h, q);
            },
            Action::UpgradeAdmin(h) => {
                let q = match self.planets.get(&h) {
                    Some(p) => {
                        let mut q = copy_planet(p);
                        q.alpha_admin = true;
                        q
                    },
                    None => {
                        return;
                    },
                };
                self.reserves.spend_alpha_cores(1);
                self.put_planet(h, q);
            },
            Action::BuildMakeshiftCommRelay => {
                self.makeshift_comm_relay = true;
            },
            Action::Colonize(h) => {
                let q = match self.planets.get(&h) {
                    Some(p) => {
                        let mut q = copy_planet(p);
                        q.has_colony = true;
                        q
                    },
                    None => {
                        return;
                    },
                };
                self.put_planet(h, q);
            },
            Action::Wait(_) => {},
        }
    }

    /// Undo the last logged action, if any: drop it from the log and take
    /// back what it did.
    #[verifier::spinoff_prover]
    #[verifier::rlimit(60)]
    pub fn undo_last_action(&mut self)
        requires
            undo_defined(old(self)@),
        ensures
            final(self)@ == undo_spec(old(self)@),
    {
        broadcast use vstd::std_specs::hash::group_hash_axioms;

        let action = match self.action_log.pop() {
            Some(a) => a,
            None => {
                return;
            },
        };
        proof {
            assert(self@ == ColonyView { log: old(self)@.log.drop_last(), ..old(self)@ });
        }
        match action {
            Action::AddFacility(h, ft) => {
                let q = match self.planets.get(&h) {
                    Some(p) => {
                        let i = find_facility(&p.facilities, ft);
                        if i >= p.facilities.len() {
                            return;
                        }
                        let mut q = copy_planet(p);
                        q.facilities.remove(i);
                        q
                    },
                    None => {
                        return;
                    },
                };
                self.put_planet(h, q);
            },
            Action::AddImprovement(h, ft) => {
                let q = match self.planets.get(&h) {
                    Some(p) => {
                        let n = count_improved(&p.facilities);
                        let refund = two_pow_u32(n as u32);
                        let i = find_facility(&p.facilities, ft);
                        let mut q = copy_planet(p);
                        let f = q.facilities[i];
                        q.facilities.set(i, FacilityState { improved: false, ..f });
                        (q, refund)
                    },
                    None => {
                        return;
                    },
                };
                self.put_planet(h, q.0);
                self.reserves.add_story_points(q.1);
            },
            Action::AddAlphaCore(h, ft) => {
                let q = match self.planets.get(&h) {
                    Some(p) => {
                        let i = find_facility(&p.facilities, ft);
                        let mut q = copy_planet(p);
                        let f = q.facilities[i];
                        q.facilities.set(i, FacilityState { alpha_core: false, ..f });
                        q
                    },
                    None => {
                        return;
                    },
                };
                self.put_planet(h, q);
                self.reserves.add_alpha_cores(1);
            },
            Action::InstallItem(h, ft, item) => {
                let q = match self.planets.get(&h) {
                    Some(p) => {
                        let i = find_facility(&p.facilities, ft);
                        let mut q = copy_planet(p);
                        let f = q.facilities[i];
                        q.facilities.set(i, FacilityState { item: None, ..f });
                        q
                    },
                    None => {
                        return;
                    },
                };
                self.put_planet(h, q);
                self.reserves.add_colony_item(item);
            },
            Action::SetFreePort(h, b) => {
                let q = match self.planets.get(&h) {
                    Some(p) => {
                        let mut q = copy_planet(p);
                        q.free_port = !b;
                        q
                    },
                    None => {
                        return;
                    },
                };
                self.put_planet(h, q);
            },
            Action::SetHazardPay(h, b) => {
                let q = match self.planets.get(&h) {
                    Some(p) => {
                        let mut q = copy_planet(p);
                        q.hazard_pay = !b;
                        q
                    },
                    None => {
                        return;
                    },
                };
                self.put_planet(h, q);
            },
            Action::UpgradeAdmin(h) => {
                let q = match self.planets.get(&h) {
                    Some(p) => {
                        let mut q = copy_planet(p);
                        q.alpha_admin = false;
                        q
                    },
                    None => {
                        return;
                    },
                };
                self.put_planet(h, q);
                self.reserves.add_alpha_cores(1);
            },
            Action::BuildMakeshiftCommRelay => {
                self.makeshift_comm_relay = false;
            },
            Action::Colonize(h) => {
                let q = match self.planets.get(&h) {
                    Some(p) => {
                        let mut q = copy_planet(p);
                        q.has_colony = false;
                        q
                    },
                    None => {
                        return;
                    },
                };
                self.put_planet(h, q);
            },
            Action::Wait(_) => {},
        }
    }
}

} // verus!
