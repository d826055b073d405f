use vstd::prelude::*;

use std::collections::{HashMap, HashSet};
use std::time::{Duration, Instant};

use vstd::std_specs::hash::{spec_hash_keys_iter, spec_keys_iter};
use vstd::std_specs::iter::IteratorSpec;

use crate::bits::{bit, lemma_bit_or, lemma_bit_single, lemma_bit_zero, lemma_bits_equal};
use crate::constants::{facility_code, facility_predecessors, upgrade_predecessors, FacilityType};
use crate::solver::state::Action;
use crate::solver::SolverSettings;
use crate::sorting::{
    lemma_filter_no_duplicates, lemma_permutation_keeps_set, lemma_sorted_hashes, sort_facilities,
    sort_hashes, sorted_facilities, sorted_hashes,
};
use crate::timekeeping::{duration_as_nanos, elapsed_since};

verus! {

/// The structural decisions included for one planet; ordering and timing of
/// the resulting actions are left to the schedule simulation.
#[derive(Clone, Debug)]
pub struct PlanetPlan {
    pub colonize: bool,
    pub free_port: bool,
    pub hazard_pay: bool,
    pub upgrade_admin: bool,
    pub improvements: bool,
    pub alpha_cores: bool,
    pub install_items: bool,
    /// The facilities the plan builds, as a set: order and repeats carry no
    /// meaning.
    pub facilities: Vec<FacilityType>,
}

/// The toggleable (non-facility) decisions of a planet plan.
#[derive(Clone, Copy, Debug, PartialEq, Eq, Structural)]
pub enum Toggle {
    Colonize,
    FreePort,
    HazardPay,
    UpgradeAdmin,
    Improvements,
    AlphaCores,
    InstallItems,
}

/// The value of a toggle in a plan.
pub open spec fn toggle_value(t: Toggle, plan: PlanetPlan) -> bool {
    match t {
        Toggle::Colonize => plan.colonize,
        Toggle::FreePort => plan.free_port,
        Toggle::HazardPay => plan.hazard_pay,
        Toggle::UpgradeAdmin => plan.upgrade_admin,
        Toggle::Improvements => plan.improvements,
        Toggle::AlphaCores => plan.alpha_cores,
        Toggle::InstallItems => plan.install_items,
    }
}

impl Toggle {
    pub fn get(self, plan: &PlanetPlan) -> (b: bool)
        ensures
            b == toggle_value(self, *plan),
    {
        match self {
            Toggle::Colonize => plan.colonize,
            Toggle::FreePort => plan.free_port,
            Toggle::HazardPay => plan.hazard_pay,
            Toggle::UpgradeAdmin => plan.upgrade_admin,
            Toggle::Improvements => plan.improvements,
            Toggle::AlphaCores => plan.alpha_cores,
            Toggle::InstallItems => plan.install_items,
        }
    }

    /// Set this toggle, leaving every other decision as it was.
    pub fn set(self, plan: &mut PlanetPlan, value: bool)
        ensures
            toggle_value(self, *final(plan)) == value,
            forall|t: Toggle| t != self ==> toggle_value(t, *final(plan)) == toggle_value(t, *old(plan)),
            final(plan).facilities == old(plan).facilities,
    {
        match self {
            Toggle::Colonize => plan.colonize = value,
            Toggle::FreePort => plan.free_port = value,
            Toggle::HazardPay => plan.hazard_pay = value,
            Toggle::UpgradeAdmin => plan.upgrade_admin = value,
            Toggle::Improvements => plan.improvements = value,
            Toggle::AlphaCores => plan.alpha_cores = value,
            Toggle::InstallItems => plan.install_items = value,
        }
    }
}

/// Number of toggles switched on.
pub open spec fn toggles_on(plan: PlanetPlan) -> nat {
    (if plan.colonize { 1nat } else { 0nat }) + (if plan.free_port { 1nat } else { 0nat }) + (if plan.hazard_pay {
        1nat
    } else {
        0nat
    }) + (if plan.upgrade_admin { 1nat } else { 0nat }) + (if plan.improvements {
        1nat
    } else {
        0nat
    }) + (if plan.alpha_cores { 1nat } else { 0nat }) + (if plan.install_items { 1nat } else { 0nat })
}

impl PlanetPlan {
    /// Number of distinct decisions; ties are broken toward simpler plans.
    pub fn size(&self) -> (n: usize)
        ensures
            n == self.facilities@.to_set().len() + toggles_on(*self),
    {
        let flags: [bool; 7] = [
            self.colonize,
            self.free_port,
            self.hazard_pay,
            self.upgrade_admin,
            self.improvements,
            self.alpha_cores,
            self.install_items,
        ];
        let mut count: usize = 0;
        let mut i: usize = 0;
        while i < 7
            invariant
                0 <= i <= 7,
                flags@.len() == 7,
                flags@ == seq![
                    self.colonize,
                    self.free_port,
                    self.hazard_pay,
                    self.upgrade_admin,
                    self.improvements,
                    self.alpha_cores,
                    self.install_items,
                ],
                count == flags_on(flags@.take(i as int)),
                count <= i,
            decreases 7 - i,
        {
            proof {
                assert(flags@.take(i + 1).drop_last() =~= flags@.take(i as int));
            }
            if flags[i] {
                count = count + 1;
            }
            i = i + 1;
        }
        proof {
            assert(flags@.take(7) =~= flags@);
            reveal_with_fuel(flags_on, 8);
        }
        let distinct = distinct_facility_list(&self.facilities);
        proof {
            lemma_with_facilities(seq![], self.facilities@);
            assert(Seq::<FacilityType>::empty().to_set() =~= Set::<FacilityType>::empty());
            assert(distinct@.to_set() =~= self.facilities@.to_set());
            distinct@.unique_seq_to_set();
            assert(distinct@.len() <= 25) by {
                lemma_distinct_facilities_bounded(distinct@);
            }
        }
        distinct.len() + count
    }
}

impl Default for PlanetPlan {
    /// A planet left undeveloped: no decision on.
    fn default() -> (p: Self)
        ensures
            !p.colonize,
            !p.free_port,
            !p.hazard_pay,
            !p.upgrade_admin,
            !p.improvements,
            !p.alpha_cores,
            !p.install_items,
            p.facilities@ == Seq::<FacilityType>::empty(),
    {
        PlanetPlan {
            colonize: false,
            free_port: false,
            hazard_pay: false,
            upgrade_admin: false,
            improvements: false,
            alpha_cores: false,
            install_items: false,
            facilities: Vec::new(),
        }
    }
}

/// `fs` with each facility of `add` appended, in order, unless already
/// present: inserting into a set kept as a list.
pub open spec fn with_facilities(fs: Seq<FacilityType>, add: Seq<FacilityType>) -> Seq<FacilityType>
    decreases add.len(),
{
    if add.len() == 0 {
        fs
    } else {
        let pre = with_facilities(fs, add.drop_last());
        if pre.contains(add.last()) {
            pre
        } else {
            pre.push(add.last())
        }
    }
}

/// Adding to a duplicate-free list keeps it duplicate-free and gives the
/// union of the two.
proof fn lemma_with_facilities(fs: Seq<FacilityType>, add: Seq<FacilityType>)
    ensures
        fs.no_duplicates() ==> with_facilities(fs, add).no_duplicates(),
        with_facilities(fs, add).to_set() == fs.to_set().union(add.to_set()),
        with_facilities(fs, add).take(fs.len() as int) == fs,
        with_facilities(fs, add).len() >= fs.len(),
    decreases add.len(),
{
    if add.len() == 0 {
        assert(add.to_set() =~= Set::<FacilityType>::empty());
        assert(fs.to_set().union(add.to_set()) =~= fs.to_set());
        assert(fs.take(fs.len() as int) =~= fs);
    } else {
        let pre_add = add.drop_last();
        lemma_with_facilities(fs, pre_add);
        let pre = with_facilities(fs, pre_add);
        pre_add.lemma_push_to_set_commute(add.last());
        assert(add =~= pre_add.push(add.last()));
        pre.lemma_push_to_set_commute(add.last());
        if pre.contains(add.last()) {
            assert(pre.to_set().contains(add.last()));
            assert(fs.to_set().union(add.to_set()) =~= pre.to_set());
        } else {
            assert(fs.to_set().union(add.to_set()) =~= pre.to_set().insert(add.last()));
            assert(pre.push(add.last()).take(fs.len() as int) =~= pre.take(fs.len() as int));
        }
    }
}

/// A duplicate-free list of facilities has at most one entry per type.
proof fn lemma_distinct_facilities_bounded(fs: Seq<FacilityType>)
    requires
        fs.no_duplicates(),
    ensures
        fs.len() <= 25,
{
    let codes = fs.map_values(|f: FacilityType| facility_code(f) as int);
    assert forall|i: int, j: int| 0 <= i < codes.len() && 0 <= j < codes.len() && i != j implies codes[i]
        != codes[j] by {
        if codes[i] == codes[j] {
            lemma_facility_code_injective(fs[i], fs[j]);
        }
    }
    let range = Set::<int>::new(|c: int| 0 <= c < 25);
    assert(codes.to_set().subset_of(range));
    vstd::set_lib::lemma_int_range(0, 25);
    assert(range =~= vstd::set_lib::set_int_range(0, 25));
    vstd::set_lib::lemma_len_subset(codes.to_set(), range);
    codes.unique_seq_to_set();
}

/// Whether `fs` holds `ft`.
fn contains_facility(fs: &Vec<FacilityType>, ft: FacilityType) -> (b: bool)
    ensures
        b == fs@.contains(ft),
{
    let mut i: usize = 0;
    while i < fs.len()
        invariant
            0 <= i <= fs@.len(),
            forall|k: int| 0 <= k < i ==> fs@[k] != ft,
        decreases fs@.len() - i,
    {
        if fs[i] == ft {
            return true;
        }
        i = i + 1;
    }
    false
}

/// Append each facility of `add` that `fs` does not hold yet.
fn add_facilities(fs: &mut Vec<FacilityType>, add: &[FacilityType])
    ensures
        final(fs)@ == with_facilities(old(fs)@, add@),
{
    let mut i: usize = 0;
    proof {
        assert(add@.take(0) =~= Seq::<FacilityType>::empty());
    }
    while i < add.len()
        invariant
            0 <= i <= add@.len(),
            fs@ == with_facilities(old(fs)@, add@.take(i as int)),
        decreases add@.len() - i,
    {
        let ft = add[i];
        proof {
            assert(add@.take(i + 1).drop_last() =~= add@.take(i as int));
        }
        if !contains_facility(fs, ft) {
            fs.push(ft);
        }
        i = i + 1;
    }
    proof {
        assert(add@.take(i as int) =~= add@);
    }
}

/// The distinct facilities of `fs`, first occurrences kept in order.
fn distinct_facility_list(fs: &Vec<FacilityType>) -> (r: Vec<FacilityType>)
    ensures
        r@ == with_facilities(seq![], fs@),
{
    let mut r: Vec<FacilityType> = Vec::new();
    add_facilities(&mut r, fs.as_slice());
    r
}

/// A maximal planet plan: colonize as given, every toggle on but the free
/// port, which is given too, and every facility of `relevant`.
pub fn planet_plan_full(relevant: &[FacilityType], colonize: bool, free_port: bool) -> (p: PlanetPlan)
    ensures
        is_full_plan(p, relevant@, colonize, free_port),
{
    let mut facilities: Vec<FacilityType> = Vec::new();
    add_facilities(&mut facilities, relevant);
    PlanetPlan {
        colonize,
        free_port,
        hazard_pay: true,
        upgrade_admin: true,
        improvements: true,
        alpha_cores: true,
        install_items: true,
        facilities,
    }
}

/// Number of `true` entries.
pub open spec fn flags_on(flags: Seq<bool>) -> nat
    decreases flags.len(),
{
    if flags.len() == 0 {
        0
    } else {
        flags_on(flags.drop_last()) + if flags.last() {
            1nat
        } else {
            0nat
        }
    }
}

/// A candidate over the whole system: one plan per planet, by name hash.
#[derive(Clone, Debug)]
pub struct SystemPlan {
    pub planets: HashMap<u64, PlanetPlan>,
    pub makeshift_comm_relay: bool,
}

/// Whether the plan's planet `h` has a decision that is on.
pub open spec fn planet_allows(plans: Map<u64, PlanetPlan>, h: u64, f: spec_fn(PlanetPlan) -> bool) -> bool {
    plans.contains_key(h) && f(plans[h])
}

/// The number of decisions in a planet plan.
pub open spec fn planet_size(p: PlanetPlan) -> nat {
    p.facilities@.to_set().len() + toggles_on(p)
}

/// The decisions of the planets `hs` of `m`, added up.
pub open spec fn sizes_sum(hs: Seq<u64>, m: Map<u64, PlanetPlan>) -> nat
    decreases hs.len(),
{
    if hs.len() == 0 {
        0
    } else {
        sizes_sum(hs.drop_last(), m) + planet_size(m[hs.last()])
    }
}

/// The number of decisions across a system plan, the relay included.
pub open spec fn system_plan_size(plan: SystemPlan) -> nat {
    sizes_sum(sorted_hashes(plan.planets@.dom()), plan.planets@) + if plan.makeshift_comm_relay {
        1nat
    } else {
        0nat
    }
}

proof fn lemma_sizes_sum_prefix(hs: Seq<u64>, m: Map<u64, PlanetPlan>, k: int)
    requires
        0 <= k <= hs.len(),
    ensures
        sizes_sum(hs.take(k), m) <= sizes_sum(hs, m),
    decreases hs.len() - k,
{
    if k < hs.len() {
        lemma_sizes_sum_prefix(hs, m, k + 1);
        assert(hs.take(k + 1).drop_last() =~= hs.take(k));
    } else {
        assert(hs.take(k) =~= hs);
    }
}

impl SystemPlan {
    /// Total number of decisions across all planets, the relay included;
    /// ties between plans are broken toward the smaller one.
    pub fn size(&self) -> (n: usize)
        requires
            system_plan_size(*self) <= usize::MAX,
        ensures
            n == system_plan_size(*self),
    {
        broadcast use vstd::std_specs::hash::group_hash_axioms;

        let hashes = sorted_plan_hashes(&self.planets);
        proof {
            lemma_sorted_hashes(self.planets@.dom(), hashes@);
        }
        let mut total: usize = 0;
        let mut i: usize = 0;
        proof {
            assert(hashes@.take(0) =~= Seq::<u64>::empty());
        }
        while i < hashes.len()
            invariant
                0 <= i <= hashes@.len(),
                hashes@ == sorted_hashes(self.planets@.dom()),
                hashes@.to_set() == self.planets@.dom(),
                system_plan_size(*self) <= usize::MAX,
                total == sizes_sum(hashes@.take(i as int), self.planets@),
            decreases hashes@.len() - i,
        {
            let h = hashes[i];
            proof {
                assert(hashes@.to_set().contains(h));
                assert(hashes@.take(i + 1).drop_last() =~= hashes@.take(i as int));
                lemma_sizes_sum_prefix(hashes@, self.planets@, i + 1);
            }
            match self.planets.get(&h) {
                Some(p) => {
                    total = total + p.size();
                },
                None => {},
            }
            i = i + 1;
        }
        proof {
            assert(hashes@.take(i as int) =~= hashes@);
        }
        if self.makeshift_comm_relay {
            total + 1
        } else {
            total
        }
    }
}

/// Whether a plan permits an action: the action's planet is in the plan with
/// the matching decision on. Disabling a bonus and waiting are never plan
/// actions.
pub open spec fn plan_allows(plan: SystemPlan, action: Action) -> bool {
    let m = plan.planets@;
    match action {
        Action::AddFacility(h, ft) => planet_allows(m, h, |p: PlanetPlan| p.facilities@.contains(ft)),
        Action::AddImprovement(h, _) => planet_allows(m, h, |p: PlanetPlan| p.improvements),
        Action::AddAlphaCore(h, _) => planet_allows(m, h, |p: PlanetPlan| p.alpha_cores),
        Action::InstallItem(h, _, _) => planet_allows(m, h, |p: PlanetPlan| p.install_items),
        Action::SetFreePort(h, b) => b && planet_allows(m, h, |p: PlanetPlan| p.free_port),
        Action::SetHazardPay(h, b) => b && planet_allows(m, h, |p: PlanetPlan| p.hazard_pay),
        Action::UpgradeAdmin(h) => planet_allows(m, h, |p: PlanetPlan| p.upgrade_admin),
        Action::BuildMakeshiftCommRelay => plan.makeshift_comm_relay,
        Action::Colonize(h) => planet_allows(m, h, |p: PlanetPlan| p.colonize),
        Action::Wait(_) => false,
    }
}

impl SystemPlan {
    /// Whether this plan permits taking `action`. Legality and affordability
    /// are checked where actions are generated; this only encodes the plan's
    /// intent.
    pub fn allows(&self, action: &Action) -> (b: bool)
        ensures
            b == plan_allows(*self, *action),
    {
        broadcast use vstd::std_specs::hash::group_hash_axioms;

        match action {
            Action::AddFacility(h, ft) => match self.planets.get(h) {
                Some(p) => contains_facility(&p.facilities, *ft),
                None => false,
            },
            Action::AddImprovement(h, _) => match self.planets.get(h) {
                Some(p) => p.improvements,
                None => false,
            },
            Action::AddAlphaCore(h, _) => match self.planets.get(h) {
                Some(p) => p.alpha_cores,
                None => false,
            },
            Action::InstallItem(h, _, _) => match self.planets.get(h) {
                Some(p) => p.install_items,
                None => false,
            },
            Action::SetFreePort(h, true) => match self.planets.get(h) {
                Some(p) => p.free_port,
                None => false,
            },
            Action::SetHazardPay(h, true) => match self.planets.get(h) {
                Some(p) => p.hazard_pay,
                None => false,
            },
            Action::UpgradeAdmin(h) => match self.planets.get(h) {
                Some(p) => p.upgrade_admin,
                None => false,
            },
            Action::BuildMakeshiftCommRelay => self.makeshift_comm_relay,
            Action::Colonize(h) => match self.planets.get(h) {
                Some(p) => p.colonize,
                None => false,
            },
            Action::SetFreePort(_, false) | Action::SetHazardPay(_, false) => false,
            Action::Wait(_) => false,
        }
    }
}

/// The toggles in the order plan keys and moves number them.
pub open spec fn toggle_at(i: int) -> Toggle {
    if i == 0 {
        Toggle::Colonize
    } else if i == 1 {
        Toggle::FreePort
    } else if i == 2 {
        Toggle::HazardPay
    } else if i == 3 {
        Toggle::UpgradeAdmin
    } else if i == 4 {
        Toggle::Improvements
    } else if i == 5 {
        Toggle::AlphaCores
    } else {
        Toggle::InstallItems
    }
}

/// The first `n` toggles of a plan as bits `0..n`.
pub open spec fn toggle_bits(p: PlanetPlan, n: nat) -> u64
    decreases n,
{
    if n == 0 {
        0
    } else {
        toggle_bits(p, (n - 1) as nat) | (if toggle_value(toggle_at(n - 1), p) {
            1u64 << ((n - 1) as u64)
        } else {
            0u64
        })
    }
}

/// `acc` with bit `7 + code` set for each facility of `fs`.
pub open spec fn facility_bits(acc: u64, fs: Seq<FacilityType>) -> u64
    decreases fs.len(),
{
    if fs.len() == 0 {
        acc
    } else {
        facility_bits(acc, fs.drop_last()) | (1u64 << ((7 + facility_code(fs.last())) as u64))
    }
}

/// A planet plan packed into one word: the seven toggles in bits `0..7` and
/// each facility in bit `7 + its code`.
pub open spec fn plan_bits(p: PlanetPlan) -> u64 {
    facility_bits(toggle_bits(p, 7), p.facilities@)
}

/// The key of a system plan: its planets in increasing hash order, each with
/// its packed decisions.
pub open spec fn plan_key_entries(plan: SystemPlan) -> Seq<(u64, u64)> {
    sorted_hashes(plan.planets@.dom()).map_values(|h: u64| (h, plan_bits(plan.planets@[h])))
}

fn planet_bits(p: &PlanetPlan) -> (bits: u64)
    ensures
        bits == plan_bits(*p),
{
    let toggles: [Toggle; 7] = [
        Toggle::Colonize,
        Toggle::FreePort,
        Toggle::HazardPay,
        Toggle::UpgradeAdmin,
        Toggle::Improvements,
        Toggle::AlphaCores,
        Toggle::InstallItems,
    ];
    let mut bits: u64 = 0;
    let mut i: usize = 0;
    while i < 7
        invariant
            0 <= i <= 7,
            forall|k: int| 0 <= k < 7 ==> #[trigger] toggles@[k] == toggle_at(k),
            bits == toggle_bits(*p, i as nat),
        decreases 7 - i,
    {
        if toggles[i].get(p) {
            bits = bits | (1u64 << (i as u64));
        } else {
            proof {
                assert(bits | 0u64 == bits) by (bit_vector);
            }
        }
        i = i + 1;
    }
    let mut j: usize = 0;
    proof {
        assert(p.facilities@.take(0) =~= Seq::<FacilityType>::empty());
    }
    while j < p.facilities.len()
        invariant
            0 <= j <= p.facilities@.len(),
            bits == facility_bits(toggle_bits(*p, 7), p.facilities@.take(j as int)),
        decreases p.facilities@.len() - j,
    {
        let code = p.facilities[j].code();
        proof {
            assert(p.facilities@.take(j + 1).drop_last() =~= p.facilities@.take(j as int));
        }
        bits = bits | (1u64 << (7 + code));
        j = j + 1;
    }
    proof {
        assert(p.facilities@.take(j as int) =~= p.facilities@);
    }
    bits
}

/// The hashes of a plan's planets in increasing order.
fn sorted_plan_hashes(planets: &HashMap<u64, PlanetPlan>) -> (hs: Vec<u64>)
    ensures
        hs@ == sorted_hashes(planets@.dom()),
{
    broadcast use vstd::std_specs::hash::group_hash_axioms;

    let mut hashes: Vec<u64> = Vec::new();
    for h in it: planets.keys()
        invariant
            it.seq() == spec_keys_iter(planets).remaining(),
            hashes@.len() == it.index(),
            forall|k: int| 0 <= k < it.index() ==> hashes@[k] == *it.seq()[k],
    {
        hashes.push(*h);
    }
    proof {
        assert(hashes@ =~= spec_keys_iter(planets).remaining().unref());
    }
    let sorted = sort_hashes(hashes);
    proof {
        lemma_permutation_keeps_set(hashes@, sorted@);
        lemma_sorted_hashes(planets@.dom(), sorted@);
    }
    sorted
}

/// The canonical key of a plan, for memoizing plan scores: per planet,
/// sorted by hash, one word packing its toggles and facility set; and
/// whether the relay is built.
pub fn plan_key(plan: &SystemPlan) -> (key: (Vec<(u64, u64)>, bool))
    ensures
        key.0@ == plan_key_entries(*plan),
        key.1 == plan.makeshift_comm_relay,
{
    broadcast use vstd::std_specs::hash::group_hash_axioms;

    let hashes = sorted_plan_hashes(&plan.planets);
    proof {
        lemma_sorted_hashes(plan.planets@.dom(), hashes@);
    }
    let mut entries: Vec<(u64, u64)> = Vec::new();
    let mut i: usize = 0;
    while i < hashes.len()
        invariant
            0 <= i <= hashes@.len(),
            hashes@ == sorted_hashes(plan.planets@.dom()),
            hashes@.to_set() == plan.planets@.dom(),
            entries@ =~= plan_key_entries(*plan).take(i as int),
        decreases hashes@.len() - i,
    {
        let h = hashes[i];
        proof {
            assert(hashes@.to_set().contains(h));
        }
        match plan.planets.get(&h) {
            Some(p) => {
                let bits = planet_bits(p);
                entries.push((h, bits));
            },
            None => {},
        }
        i = i + 1;
    }
    proof {
        assert(plan_key_entries(*plan).take(i as int) =~= plan_key_entries(*plan));
    }
    (entries, plan.makeshift_comm_relay)
}

/// The two planet plans make the same decisions.
pub open spec fn same_decisions(p: PlanetPlan, q: PlanetPlan) -> bool {
    &&& forall|t: Toggle| #[trigger] toggle_value(t, p) == toggle_value(t, q)
    &&& forall|f: FacilityType| #[trigger] p.facilities@.contains(f) == q.facilities@.contains(f)
}

proof fn lemma_facility_code_injective(a: FacilityType, b: FacilityType)
    requires
        facility_code(a) == facility_code(b),
    ensures
        a == b,
{
}

proof fn lemma_toggle_bits(p: PlanetPlan, n: nat, j: u64)
    requires
        n <= 7,
        j < 64,
    ensures
        bit(toggle_bits(p, n), j) == (j < n && toggle_value(toggle_at(j as int), p)),
    decreases n,
{
    if n == 0 {
        lemma_bit_zero(j);
    } else {
        lemma_toggle_bits(p, (n - 1) as nat, j);
        let rest = toggle_bits(p, (n - 1) as nat);
        let k = (n - 1) as u64;
        let add = if toggle_value(toggle_at(n - 1), p) {
            1u64 << k
        } else {
            0u64
        };
        lemma_bit_or(rest, add, j);
        lemma_bit_single(k, j);
        lemma_bit_zero(j);
    }
}

proof fn lemma_facility_bits(acc: u64, fs: Seq<FacilityType>, j: u64)
    requires
        j < 64,
    ensures
        bit(facility_bits(acc, fs), j) == (bit(acc, j) || exists|k: int|
            0 <= k < fs.len() && 7 + facility_code(#[trigger] fs[k]) == j),
    decreases fs.len(),
{
    if fs.len() > 0 {
        let pre = fs.drop_last();
        lemma_facility_bits(acc, pre, j);
        let c = (7 + facility_code(fs.last())) as u64;
        lemma_bit_or(facility_bits(acc, pre), 1u64 << c, j);
        lemma_bit_single(c, j);
        if exists|k: int| 0 <= k < pre.len() && 7 + facility_code(#[trigger] pre[k]) == j {
            let k = choose|k: int| 0 <= k < pre.len() && 7 + facility_code(#[trigger] pre[k]) == j;
            assert(fs[k] == pre[k]);
        }
        if exists|k: int| 0 <= k < fs.len() && 7 + facility_code(#[trigger] fs[k]) == j {
            let k = choose|k: int| 0 <= k < fs.len() && 7 + facility_code(#[trigger] fs[k]) == j;
            if k < pre.len() {
                assert(pre[k] == fs[k]);
            }
        }
    }
}

/// What each bit of a packed planet plan records.
proof fn lemma_plan_bit(p: PlanetPlan, j: u64)
    requires
        j < 64,
    ensures
        bit(plan_bits(p), j) == if j < 7 {
            toggle_value(toggle_at(j as int), p)
        } else {
            exists|k: int|
                0 <= k < p.facilities@.len() && 7 + facility_code(#[trigger] p.facilities@[k])
                    == j
        },
{
    lemma_facility_bits(toggle_bits(p, 7), p.facilities@, j);
    lemma_toggle_bits(p, 7, j);
}

/// Packed plans are equal exactly when the plans make the same decisions.
proof fn lemma_plan_bits_exact(p: PlanetPlan, q: PlanetPlan)
    ensures
        (plan_bits(p) == plan_bits(q)) == same_decisions(p, q),
{
    if plan_bits(p) == plan_bits(q) {
        assert forall|t: Toggle| #[trigger] toggle_value(t, p) == toggle_value(t, q) by {
            let i: u64 = match t {
                Toggle::Colonize => 0,
                Toggle::FreePort => 1,
                Toggle::HazardPay => 2,
                Toggle::UpgradeAdmin => 3,
                Toggle::Improvements => 4,
                Toggle::AlphaCores => 5,
                Toggle::InstallItems => 6,
            };
            assert(toggle_at(i as int) == t);
            lemma_plan_bit(p, i);
            lemma_plan_bit(q, i);
        }
        assert forall|f: FacilityType| #[trigger] p.facilities@.contains(f)
            == q.facilities@.contains(f) by {
            let j = (7 + facility_code(f)) as u64;
            lemma_plan_bit(p, j);
            lemma_plan_bit(q, j);
            if p.facilities@.contains(f) {
                let k = choose|k: int| 0 <= k < p.facilities@.len() && p.facilities@[k] == f;
                assert(7 + facility_code(p.facilities@[k]) == j);
                let k2 = choose|k2: int|
                    0 <= k2 < q.facilities@.len() && 7 + facility_code(#[trigger] q.facilities@[k2])
                        == j;
                lemma_facility_code_injective(q.facilities@[k2], f);
                assert(q.facilities@.contains(f));
            }
            if q.facilities@.contains(f) {
                let k = choose|k: int| 0 <= k < q.facilities@.len() && q.facilities@[k] == f;
                assert(7 + facility_code(q.facilities@[k]) == j);
                let k2 = choose|k2: int|
                    0 <= k2 < p.facilities@.len() && 7 + facility_code(#[trigger] p.facilities@[k2])
                        == j;
                lemma_facility_code_injective(p.facilities@[k2], f);
                assert(p.facilities@.contains(f));
            }
        }
    }
    if same_decisions(p, q) {
        assert forall|j: u64| j < 64 implies #[trigger] bit(plan_bits(p), j) == bit(plan_bits(q), j) by {
            lemma_plan_bit(p, j);
            lemma_plan_bit(q, j);
            if j < 7 {
                assert(toggle_value(toggle_at(j as int), p) == toggle_value(toggle_at(j as int), q));
            } else {
                if exists|k: int|
                    0 <= k < p.facilities@.len() && 7 + facility_code(#[trigger] p.facilities@[k])
                        == j {
                    let k = choose|k: int|
                        0 <= k < p.facilities@.len() && 7 + facility_code(
                            #[trigger] p.facilities@[k],
                        ) == j;
                    let f = p.facilities@[k];
                    assert(p.facilities@.contains(f));
                    assert(q.facilities@.contains(f));
                    let k2 = choose|k2: int| 0 <= k2 < q.facilities@.len() && q.facilities@[k2] == f;
                    assert(7 + facility_code(q.facilities@[k2]) == j);
                }
                if exists|k: int|
                    0 <= k < q.facilities@.len() && 7 + facility_code(#[trigger] q.facilities@[k])
                        == j {
                    let k = choose|k: int|
                        0 <= k < q.facilities@.len() && 7 + facility_code(
                            #[trigger] q.facilities@[k],
                        ) == j;
                    let f = q.facilities@[k];
                    assert(q.facilities@.contains(f));
                    assert(p.facilities@.contains(f));
                    let k2 = choose|k2: int| 0 <= k2 < p.facilities@.len() && p.facilities@[k2] == f;
                    assert(7 + facility_code(p.facilities@[k2]) == j);
                }
            }
        }
        lemma_bits_equal(plan_bits(p), plan_bits(q));
    }
}

/// The same decisions permit the same actions on a planet; and plans that
/// permit the same actions on a planet they both hold make the same
/// decisions there.
proof fn lemma_same_decisions_allow(a: SystemPlan, b: SystemPlan, h: u64)
    requires
        a.planets@.contains_key(h),
        b.planets@.contains_key(h),
    ensures
        same_decisions(a.planets@[h], b.planets@[h]) ==> forall|act: Action|
            action_planet(act) == Some(h) ==> #[trigger] plan_allows(a, act) == plan_allows(b, act),
        (forall|act: Action| #[trigger] plan_allows(a, act) == plan_allows(b, act)) ==> same_decisions(
            a.planets@[h],
            b.planets@[h],
        ),
{
    let p = a.planets@[h];
    let q = b.planets@[h];
    if same_decisions(p, q) {
        assert forall|act: Action| action_planet(act) == Some(h) implies #[trigger] plan_allows(
            a,
            act,
        ) == plan_allows(b, act) by {
            match act {
                Action::AddFacility(_, f) => {
                    assert(p.facilities@.contains(f) == q.facilities@.contains(f));
                },
                Action::AddImprovement(..) => {
                    assert(toggle_value(Toggle::Improvements, p) == toggle_value(Toggle::Improvements, q));
                },
                Action::AddAlphaCore(..) => {
                    assert(toggle_value(Toggle::AlphaCores, p) == toggle_value(Toggle::AlphaCores, q));
                },
                Action::InstallItem(..) => {
                    assert(toggle_value(Toggle::InstallItems, p) == toggle_value(Toggle::InstallItems, q));
                },
                Action::SetFreePort(..) => {
                    assert(toggle_value(Toggle::FreePort, p) == toggle_value(Toggle::FreePort, q));
                },
                Action::SetHazardPay(..) => {
                    assert(toggle_value(Toggle::HazardPay, p) == toggle_value(Toggle::HazardPay, q));
                },
                Action::UpgradeAdmin(..) => {
                    assert(toggle_value(Toggle::UpgradeAdmin, p) == toggle_value(Toggle::UpgradeAdmin, q));
                },
                Action::Colonize(..) => {
                    assert(toggle_value(Toggle::Colonize, p) == toggle_value(Toggle::Colonize, q));
                },
                _ => {},
            }
        }
    }
    if forall|act: Action| #[trigger] plan_allows(a, act) == plan_allows(b, act) {
        assert(plan_allows(a, Action::Colonize(h)) == plan_allows(b, Action::Colonize(h)));
        assert(plan_allows(a, Action::SetFreePort(h, true)) == plan_allows(
            b,
            Action::SetFreePort(h, true),
        ));
        assert(plan_allows(a, Action::SetHazardPay(h, true)) == plan_allows(
            b,
            Action::SetHazardPay(h, true),
        ));
        assert(plan_allows(a, Action::UpgradeAdmin(h)) == plan_allows(b, Action::UpgradeAdmin(h)));
        assert(plan_allows(a, Action::AddImprovement(h, FacilityType::Mining)) == plan_allows(
            b,
            Action::AddImprovement(h, FacilityType::Mining),
        ));
        assert(plan_allows(a, Action::AddAlphaCore(h, FacilityType::Mining)) == plan_allows(
            b,
            Action::AddAlphaCore(h, FacilityType::Mining),
        ));
        assert(plan_allows(
            a,
            Action::InstallItem(h, FacilityType::Mining, crate::constants::ColonyItem::MantleBore),
        ) == plan_allows(
            b,
            Action::InstallItem(h, FacilityType::Mining, crate::constants::ColonyItem::MantleBore),
        ));
        assert forall|t: Toggle| #[trigger] toggle_value(t, p) == toggle_value(t, q) by {
        }
        assert forall|f: FacilityType| #[trigger] p.facilities@.contains(f)
            == q.facilities@.contains(f) by {
            assert(plan_allows(a, Action::AddFacility(h, f)) == plan_allows(
                b,
                Action::AddFacility(h, f),
            ));
        }
    }
}

/// The planet an action acts on, if any.
pub open spec fn action_planet(act: Action) -> Option<u64> {
    match act {
        Action::AddFacility(h, _) => Some(h),
        Action::AddImprovement(h, _) => Some(h),
        Action::AddAlphaCore(h, _) => Some(h),
        Action::InstallItem(h, _, _) => Some(h),
        Action::SetFreePort(h, _) => Some(h),
        Action::SetHazardPay(h, _) => Some(h),
        Action::UpgradeAdmin(h) => Some(h),
        Action::BuildMakeshiftCommRelay => None,
        Action::Colonize(h) => Some(h),
        Action::Wait(_) => None,
    }
}

/// The single planet whose score inputs `action` can change: the planet it
/// acts on. The relay (which moves the stability of every colony) and
/// waiting have none.
pub fn factored_planet(action: &Action) -> (r: Option<u64>)
    ensures
        r == action_planet(*action),
{
    match action {
        Action::AddFacility(planet_hash, _)
        | Action::AddImprovement(planet_hash, _)
        | Action::AddAlphaCore(planet_hash, _)
        | Action::InstallItem(planet_hash, _, _)
        | Action::SetFreePort(planet_hash, _)
        | Action::SetHazardPay(planet_hash, _)
        | Action::UpgradeAdmin(planet_hash)
        | Action::Colonize(planet_hash) => Some(*planet_hash),
        Action::BuildMakeshiftCommRelay | Action::Wait(_) => None,
    }
}

/// Whether the build queue lets `action` start now: with parallel builds
/// anything may; otherwise a facility can only be started on a planet with
/// no build under way (`busy` holds the planets that have one).
pub fn queue_allows_action(busy: &HashSet<u64>, action: &Action, settings: SolverSettings) -> (b: bool)
    ensures
        b == (settings.allow_parallel_builds || match *action {
            Action::AddFacility(h, _) => !busy@.contains(h),
            _ => true,
        }),
{
    broadcast use vstd::std_specs::hash::group_hash_axioms;

    if settings.allow_parallel_builds {
        return true;
    }
    match action {
        Action::AddFacility(planet_hash, _) => !busy.contains(planet_hash),
        _ => true,
    }
}

/// Law: two system plans get the same key exactly when they hold the same
/// planets and permit the same actions, so a score memoized under a key
/// belongs to every plan with that key.
pub proof fn lemma_plan_key_exact(a: SystemPlan, b: SystemPlan)
    ensures
        (plan_key_entries(a) == plan_key_entries(b) && a.makeshift_comm_relay
            == b.makeshift_comm_relay) <==> (a.planets@.dom() == b.planets@.dom() && forall|
            act: Action,
        | #[trigger] plan_allows(a, act) == plan_allows(b, act)),
{
    broadcast use vstd::std_specs::hash::group_hash_axioms;

    let da = a.planets@.dom();
    let db = b.planets@.dom();
    let sa = sorted_hashes(da);
    let sb = sorted_hashes(db);
    lemma_sorted_hashes(da, sa);
    lemma_sorted_hashes(db, sb);
    let ea = plan_key_entries(a);
    let eb = plan_key_entries(b);
    if ea == eb && a.makeshift_comm_relay == b.makeshift_comm_relay {
        assert(ea.len() == sa.len() && eb.len() == sb.len());
        assert(sa =~= sb) by {
            assert forall|i: int| 0 <= i < sa.len() implies sa[i] == sb[i] by {
                assert(ea[i].0 == sa[i]);
                assert(eb[i].0 == sb[i]);
            }
        }
        assert(da == db);
        assert forall|act: Action| #[trigger] plan_allows(a, act) == plan_allows(b, act) by {
            match action_planet(act) {
                Some(h) => {
                    if da.contains(h) {
                        assert(sa.to_set().contains(h));
                        let i = choose|i: int| 0 <= i < sa.len() && sa[i] == h;
                        assert(ea[i] == (h, plan_bits(a.planets@[h])));
                        assert(eb[i] == (h, plan_bits(b.planets@[h])));
                        lemma_plan_bits_exact(a.planets@[h], b.planets@[h]);
                        lemma_same_decisions_allow(a, b, h);
                    }
                },
                None => {},
            }
        }
    }
    if da == db && forall|act: Action| #[trigger] plan_allows(a, act) == plan_allows(b, act) {
        assert(plan_allows(a, Action::BuildMakeshiftCommRelay) == plan_allows(
            b,
            Action::BuildMakeshiftCommRelay,
        ));
        assert(ea =~= eb) by {
            assert forall|i: int| 0 <= i < ea.len() implies ea[i] == eb[i] by {
                let h = sa[i];
                assert(sa.to_set().contains(h));
                lemma_same_decisions_allow(a, b, h);
                lemma_plan_bits_exact(a.planets@[h], b.planets@[h]);
            }
        }
    }
}

/// One plan edit the hill-climb can make, identified independently of the
/// plan it applies to.
#[derive(Clone, Copy, Debug, PartialEq, Eq, Hash, Structural)]
pub enum MoveKey {
    RelayFlip,
    /// Flip the whole planet in or out of the plan.
    ColonizeFlip(u64),
    FacDrop(u64, FacilityType),
    FacAdd(u64, FacilityType),
    /// A toggle by its index; never the colonize toggle.
    ToggleFlip(u64, u8),
}

/// The planet a move touches; `None` for a system-wide move.
pub open spec fn move_planet(key: MoveKey) -> Option<u64> {
    match key {
        MoveKey::RelayFlip => None,
        MoveKey::ColonizeFlip(h) => Some(h),
        MoveKey::FacDrop(h, _) => Some(h),
        MoveKey::FacAdd(h, _) => Some(h),
        MoveKey::ToggleFlip(h, _) => Some(h),
    }
}

/// The facility a move adds or drops.
pub open spec fn move_facility(key: MoveKey) -> Option<FacilityType> {
    match key {
        MoveKey::FacDrop(_, ft) => Some(ft),
        MoveKey::FacAdd(_, ft) => Some(ft),
        _ => None,
    }
}

fn move_locality(key: MoveKey) -> (r: Option<u64>)
    ensures
        r == move_planet(key),
{
    match key {
        MoveKey::RelayFlip => None,
        MoveKey::ColonizeFlip(h) | MoveKey::FacDrop(h, _) | MoveKey::FacAdd(h, _)
        | MoveKey::ToggleFlip(h, _) => Some(h),
    }
}

fn move_facility_type(key: MoveKey) -> (r: Option<FacilityType>)
    ensures
        r == move_facility(key),
{
    match key {
        MoveKey::FacDrop(_, ft) | MoveKey::FacAdd(_, ft) => Some(ft),
        MoveKey::RelayFlip | MoveKey::ColonizeFlip(_) | MoveKey::ToggleFlip(_, _) => None,
    }
}

/// What the climb knows in advance about each planet: the facilities that
/// can ever be built there (deposit requirements are fixed properties of the
/// planet), and whether colony items exist at all, without which item
/// installs can never happen.
#[derive(Clone, Debug)]
pub struct SearchContext {
    pub relevant_facilities: HashMap<u64, Vec<FacilityType>>,
    pub allow_install_items: bool,
}

impl SearchContext {
    /// The statically buildable facilities of planet `hash`; none for an
    /// unknown planet.
    pub open spec fn relevant(&self, hash: u64) -> Seq<FacilityType> {
        if self.relevant_facilities@.contains_key(hash) {
            self.relevant_facilities@[hash]@
        } else {
            Seq::empty()
        }
    }

    pub fn relevant_facilities(&self, hash: u64) -> (r: &[FacilityType])
        ensures
            r@ == self.relevant(hash),
    {
        broadcast use vstd::std_specs::hash::group_hash_axioms;

        match self.relevant_facilities.get(&hash) {
            Some(v) => v.as_slice(),
            None => &[],
        }
    }
}

/// What plan seeding and plan edits read of the current system: its
/// planets, those that already have a colony (a colony is permanent),
/// whether a makeshift comm relay can be built, and whether a stable point
/// is free for one.
#[derive(Debug)]
pub struct SystemFacts {
    pub planets: HashSet<u64>,
    pub colonized: HashSet<u64>,
    pub relay_buildable: bool,
    pub stable_point_free: bool,
}

/// Whether `plan` develops planet `h`: it already has a colony, or the plan
/// colonizes it.
pub open spec fn develops(facts: SystemFacts, plan: SystemPlan, h: u64) -> bool {
    (plan.planets@.contains_key(h) && plan.planets@[h].colonize) || facts.colonized@.contains(h)
}

/// Whether `plan` develops planet `hash`. Undeveloped planets are left to
/// the choice of planet set, not to facility and toggle edits.
pub fn plan_develops(facts: &SystemFacts, plan: &SystemPlan, hash: u64) -> (b: bool)
    ensures
        b == develops(*facts, *plan, hash),
{
    broadcast use vstd::std_specs::hash::group_hash_axioms;

    let planned = match plan.planets.get(&hash) {
        Some(p) => p.colonize,
        None => false,
    };
    planned || facts.colonized.contains(&hash)
}

/// Both plans make the same toggle decisions.
pub open spec fn same_toggles(p: PlanetPlan, q: PlanetPlan) -> bool {
    forall|t: Toggle| #[trigger] toggle_value(t, q) == toggle_value(t, p)
}

/// The plan of an undeveloped planet: no decision on.
pub open spec fn is_empty_plan(q: PlanetPlan) -> bool {
    &&& forall|t: Toggle| !#[trigger] toggle_value(t, q)
    &&& q.facilities@.len() == 0
}

/// A maximal planet plan: colonize and free port as given, every other
/// toggle on, and every facility of `relevant`, each once.
pub open spec fn is_full_plan(q: PlanetPlan, relevant: Seq<FacilityType>, colonize: bool, free_port: bool) -> bool {
    &&& q.colonize == colonize
    &&& q.free_port == free_port
    &&& q.hazard_pay && q.upgrade_admin && q.improvements && q.alpha_cores && q.install_items
    &&& q.facilities@ == with_facilities(seq![], relevant)
}

/// Whether a move can be applied to `plan` now: the relay needs a free
/// stable point or must be built already; a colonize flip needs a planet
/// that is in the plan without a colony; facility and toggle edits need a
/// developed planet of the plan, holding the facility to drop and lacking
/// the one to add.
pub open spec fn move_applies(facts: SystemFacts, plan: SystemPlan, key: MoveKey) -> bool {
    let m = plan.planets@;
    match key {
        MoveKey::RelayFlip => facts.stable_point_free || plan.makeshift_comm_relay,
        MoveKey::ColonizeFlip(h) => !facts.colonized@.contains(h) && m.contains_key(h),
        MoveKey::FacDrop(h, ft) => develops(facts, plan, h) && m.contains_key(h)
            && m[h].facilities@.contains(ft),
        MoveKey::FacAdd(h, ft) => develops(facts, plan, h) && m.contains_key(h)
            && !m[h].facilities@.contains(ft),
        MoveKey::ToggleFlip(h, _) => develops(facts, plan, h) && m.contains_key(h),
    }
}

/// How a move changes the plan of the planet it acts on, from `p` to `q`.
pub open spec fn planet_after_move(
    facts: SystemFacts,
    ctx: SearchContext,
    plan: SystemPlan,
    key: MoveKey,
    p: PlanetPlan,
    q: PlanetPlan,
) -> bool {
    match key {
        MoveKey::ColonizeFlip(h) => if develops(facts, plan, h) {
            is_empty_plan(q)
        } else {
            is_full_plan(q, ctx.relevant(h), true, false)
        },
        MoveKey::FacDrop(_, ft) => same_toggles(p, q) && q.facilities@ == p.facilities@.filter(
            |f: FacilityType| f != ft,
        ),
        MoveKey::FacAdd(_, ft) => same_toggles(p, q) && q.facilities@ == with_facilities(
            with_facilities(p.facilities@, seq![ft]),
            facility_predecessors(ft),
        ),
        MoveKey::ToggleFlip(_, i) => {
            &&& toggle_value(toggle_at(i as int), q) == !toggle_value(toggle_at(i as int), p)
            &&& forall|t: Toggle| t != toggle_at(i as int) ==> #[trigger] toggle_value(t, q)
                == toggle_value(t, p)
            &&& q.facilities@ == p.facilities@
        },
        MoveKey::RelayFlip => q == p,
    }
}

/// `t` is `plan` with the move applied: the relay flipped, or the one
/// planet the move acts on changed as `planet_after_move` says.
pub open spec fn is_move_result(
    facts: SystemFacts,
    ctx: SearchContext,
    plan: SystemPlan,
    key: MoveKey,
    t: SystemPlan,
) -> bool {
    match move_planet(key) {
        None => t.planets@ == plan.planets@ && t.makeshift_comm_relay == !plan.makeshift_comm_relay,
        Some(h) => {
            &&& t.makeshift_comm_relay == plan.makeshift_comm_relay
            &&& t.planets@ == plan.planets@.insert(h, t.planets@[h])
            &&& planet_after_move(facts, ctx, plan, key, plan.planets@[h], t.planets@[h])
        },
    }
}

/// `plan` with planet `h` given plan `q`.
fn with_planet(plan: &SystemPlan, h: u64, q: PlanetPlan) -> (t: SystemPlan)
    ensures
        t.planets@ == plan.planets@.insert(h, q),
        t.makeshift_comm_relay == plan.makeshift_comm_relay,
{
    broadcast use vstd::std_specs::hash::group_hash_axioms;

    let mut planets = plan.planets.clone();
    planets.insert(h, q);
    SystemPlan { planets, makeshift_comm_relay: plan.makeshift_comm_relay }
}

/// A copy of a facility list.
fn copy_facilities(fs: &Vec<FacilityType>) -> (r: Vec<FacilityType>)
    ensures
        r@ == fs@,
{
    let mut r: Vec<FacilityType> = Vec::new();
    let mut i: usize = 0;
    while i < fs.len()
        invariant
            0 <= i <= fs@.len(),
            r@ == fs@.take(i as int),
        decreases fs@.len() - i,
    {
        r.push(fs[i]);
        proof {
            assert(fs@.take(i + 1) =~= fs@.take(i as int).push(fs@[i as int]));
        }
        i = i + 1;
    }
    proof {
        assert(fs@.take(i as int) =~= fs@);
    }
    r
}

/// `p` with the facility list `facilities` and the same toggles.
fn with_facility_list(p: &PlanetPlan, facilities: Vec<FacilityType>) -> (q: PlanetPlan)
    ensures
        same_toggles(*p, q),
        q.facilities@ == facilities@,
{
    PlanetPlan {
        colonize: p.colonize,
        free_port: p.free_port,
        hazard_pay: p.hazard_pay,
        upgrade_admin: p.upgrade_admin,
        improvements: p.improvements,
        alpha_cores: p.alpha_cores,
        install_items: p.install_items,
        facilities,
    }
}

/// The facilities of `fs` other than `ft`.
fn without_facility(fs: &Vec<FacilityType>, ft: FacilityType) -> (r: Vec<FacilityType>)
    ensures
        r@ == fs@.filter(|f: FacilityType| f != ft),
{
    let mut r: Vec<FacilityType> = Vec::new();
    let mut i: usize = 0;
    while i < fs.len()
        invariant
            0 <= i <= fs@.len(),
            r@ == fs@.take(i as int).filter(|f: FacilityType| f != ft),
        decreases fs@.len() - i,
    {
        proof {
            let pre = fs@.take(i as int);
            assert(fs@.take(i + 1) =~= pre.push(fs@[i as int]));
            pre.lemma_filter_push(fs@[i as int], |f: FacilityType| f != ft);
        }
        if fs[i] != ft {
            r.push(fs[i]);
        }
        i = i + 1;
    }
    proof {
        assert(fs@.take(i as int) =~= fs@);
    }
    r
}

/// Apply `key` to `plan`, giving the neighboring plan, or `None` when the
/// move does not apply to this plan (as with a stale queued move).
///
/// A colonize flip brings an undeveloped planet in with the full plan, free
/// port off, and resets a developed one to undeveloped. Adding a facility
/// brings in the lower tiers of its upgrade chain too, without which the
/// permission would never take effect.
pub fn apply_move(facts: &SystemFacts, ctx: &SearchContext, plan: &SystemPlan, key: MoveKey) -> (r:
    Option<SystemPlan>)
    requires
        key matches MoveKey::ToggleFlip(h, i) ==> (develops(*facts, *plan, h) ==> i < 7),
    ensures
        r is Some <==> move_applies(*facts, *plan, key),
        r matches Some(t) ==> is_move_result(*facts, *ctx, *plan, key, t),
{
    broadcast use vstd::std_specs::hash::group_hash_axioms;

    match key {
        MoveKey::RelayFlip => {
            if facts.stable_point_free || plan.makeshift_comm_relay {
                Some(
                    SystemPlan {
                        planets: plan.planets.clone(),
                        makeshift_comm_relay: !plan.makeshift_comm_relay,
                    },
                )
            } else {
                None
            }
        },
        MoveKey::ColonizeFlip(h) => {
            if facts.colonized.contains(&h) {
                return None;
            }
            match plan.planets.get(&h) {
                None => None,
                Some(_) => {
                    let q = if plan_develops(facts, plan, h) {
                        PlanetPlan::default()
                    } else {
                        planet_plan_full(ctx.relevant_facilities(h), true, false)
                    };
                    let t = with_planet(plan, h, q);
                    proof {
                        assert(t.planets@[h] == q);
                        assert(t.planets@ == plan.planets@.insert(h, t.planets@[h]));
                    }
                    Some(t)
                },
            }
        },
        MoveKey::FacDrop(h, ft) => {
            if !plan_develops(facts, plan, h) {
                return None;
            }
            match plan.planets.get(&h) {
                None => None,
                Some(p) => {
                    if !contains_facility(&p.facilities, ft) {
                        return None;
                    }
                    let q = with_facility_list(p, without_facility(&p.facilities, ft));
                    let t = with_planet(plan, h, q);
                    proof {
                        assert(t.planets@[h] == q);
                    }
                    Some(t)
                },
            }
        },
        MoveKey::FacAdd(h, ft) => {
            if !plan_develops(facts, plan, h) {
                return None;
            }
            match plan.planets.get(&h) {
                None => None,
                Some(p) => {
                    if contains_facility(&p.facilities, ft) {
                        return None;
                    }
                    let mut facilities = copy_facilities(&p.facilities);
                    let single: [FacilityType; 1] = [ft];
                    proof {
                        assert(single@ =~= seq![ft]);
                    }
                    add_facilities(&mut facilities, single.as_slice());
                    add_facilities(&mut facilities, upgrade_predecessors(ft));
                    let q = with_facility_list(p, facilities);
                    let t = with_planet(plan, h, q);
                    proof {
                        assert(t.planets@[h] == q);
                    }
                    Some(t)
                },
            }
        },
        MoveKey::ToggleFlip(h, i) => {
            if !plan_develops(facts, plan, h) {
                return None;
            }
            let all: [Toggle; 7] = [
                Toggle::Colonize,
                Toggle::FreePort,
                Toggle::HazardPay,
                Toggle::UpgradeAdmin,
                Toggle::Improvements,
                Toggle::AlphaCores,
                Toggle::InstallItems,
            ];
            let toggle = all[i as usize];
            proof {
                assert(toggle == toggle_at(i as int));
            }
            match plan.planets.get(&h) {
                None => None,
                Some(p) => {
                    let mut q = with_facility_list(p, copy_facilities(&p.facilities));
                    let cur = toggle.get(&q);
                    toggle.set(&mut q, !cur);
                    let t = with_planet(plan, h, q);
                    proof {
                        assert(t.planets@[h] == q);
                    }
                    Some(t)
                },
            }
        },
    }
}

/// `t` is the seed plan that develops the `active` planets of the system
/// with maximal plans (colonizing those without a colony) and leaves the
/// others undeveloped; the relay is built when it can be.
pub open spec fn is_seed_plan(
    facts: SystemFacts,
    ctx: SearchContext,
    active: Set<u64>,
    free_port: bool,
    t: SystemPlan,
) -> bool {
    &&& t.planets@.dom() == facts.planets@
    &&& t.makeshift_comm_relay == facts.relay_buildable
    &&& forall|h: u64| #[trigger]
        t.planets@.contains_key(h) ==> if active.contains(h) {
            is_full_plan(t.planets@[h], ctx.relevant(h), !facts.colonized@.contains(h), free_port)
        } else {
            is_empty_plan(t.planets@[h])
        }
}

/// The system plan in which the `active` planets get the full plan and all
/// others are left undeveloped.
pub fn build_system_plan(
    facts: &SystemFacts,
    ctx: &SearchContext,
    active: &HashSet<u64>,
    free_port: bool,
) -> (plan: SystemPlan)
    ensures
        is_seed_plan(*facts, *ctx, active@, free_port, plan),
{
    broadcast use vstd::std_specs::hash::group_hash_axioms;

    let mut planets: HashMap<u64, PlanetPlan> = HashMap::new();
    for h in it: facts.planets.iter()
        invariant
            it.seq() == spec_hash_keys_iter(&facts.planets).remaining(),
            planets@.dom() == it.seq().take(it.index()).unref().to_set(),
            forall|k: u64| #[trigger]
                planets@.contains_key(k) ==> if active@.contains(k) {
                    is_full_plan(planets@[k], ctx.relevant(k), !facts.colonized@.contains(k), free_port)
                } else {
                    is_empty_plan(planets@[k])
                },
    {
        let ghost before = it.seq().take(it.index()).unref();
        let pplan = if active.contains(h) {
            planet_plan_full(ctx.relevant_facilities(*h), !facts.colonized.contains(h), free_port)
        } else {
            PlanetPlan::default()
        };
        planets.insert(*h, pplan);
        proof {
            let after = it.seq().take(it.index() + 1).unref();
            assert(after =~= before.push(*h));
            before.lemma_push_to_set_commute(*h);
        }
    }
    proof {
        assert(spec_hash_keys_iter(&facts.planets).remaining().take(
            spec_hash_keys_iter(&facts.planets).remaining().len() as int,
        ) =~= spec_hash_keys_iter(&facts.planets).remaining());
        assert(planets@.dom() =~= facts.planets@);
    }
    SystemPlan { planets, makeshift_comm_relay: facts.relay_buildable }
}

/// The free-port values to seed with: with a stability or defense floor the
/// free port (which costs stability) may make the maximal plan infeasible,
/// so both are tried; without one only the free port on.
pub open spec fn seed_free_port_values(has_floor: bool) -> Seq<bool> {
    if has_floor {
        seq![false, true]
    } else {
        seq![true]
    }
}

pub fn seed_free_ports(has_floor: bool) -> (r: &'static [bool])
    ensures
        r@ == seed_free_port_values(has_floor),
{
    if has_floor {
        &[false, true]
    } else {
        &[true]
    }
}

/// The planets without a colony, in increasing hash order.
pub open spec fn optional_planets(facts: SystemFacts) -> Seq<u64> {
    sorted_hashes(facts.planets@.difference(facts.colonized@))
}

/// The seeds tried for one set of active planets: one per free-port value.
pub open spec fn seeds_for(active: Set<u64>, has_floor: bool) -> Seq<(Set<u64>, bool)> {
    seed_free_port_values(has_floor).map_values(|fp: bool| (active, fp))
}

/// The seeds for all planets minus planet `h`, unless that leaves none.
pub open spec fn drop_one_seeds(facts: SystemFacts, has_floor: bool, h: u64) -> Seq<(Set<u64>, bool)> {
    if facts.planets@.remove(h).is_empty() {
        Seq::empty()
    } else {
        seeds_for(facts.planets@.remove(h), has_floor)
    }
}

/// The seeds, as (active planets, free port), when the first `k` planets
/// without a colony have been tried: all planets; then all planets but one,
/// for each of those `k`.
pub open spec fn seed_list(facts: SystemFacts, has_floor: bool, k: int) -> Seq<(Set<u64>, bool)> {
    (if facts.planets@.is_empty() {
        Seq::empty()
    } else {
        seeds_for(facts.planets@, has_floor)
    }) + optional_planets(facts).take(k).map_values(
        |h: u64| drop_one_seeds(facts, has_floor, h),
    ).flatten()
}

/// Law: every seed keeps developed each planet that already has a colony
/// (a colony cannot be undone); only planets without one are ever left out.
pub proof fn lemma_seeds_keep_colonies(facts: SystemFacts, has_floor: bool, k: int)
    requires
        facts.planets@.finite(),
        0 <= k <= optional_planets(facts).len(),
    ensures
        forall|j: int|
            0 <= j < seed_list(facts, has_floor, k).len() ==> facts.planets@.intersect(
                facts.colonized@,
            ).subset_of(#[trigger] seed_list(facts, has_floor, k)[j].0),
    decreases k,
{
    let kept = facts.planets@.intersect(facts.colonized@);
    let opt = optional_planets(facts);
    lemma_sorted_hashes(facts.planets@.difference(facts.colonized@), opt);
    let per = |h: u64| drop_one_seeds(facts, has_floor, h);
    let head = if facts.planets@.is_empty() {
        Seq::<(Set<u64>, bool)>::empty()
    } else {
        seeds_for(facts.planets@, has_floor)
    };
    if k == 0 {
        assert(opt.take(0) =~= Seq::<u64>::empty());
        assert(opt.take(0).map_values(per) =~= Seq::<Seq<(Set<u64>, bool)>>::empty());
        assert(seed_list(facts, has_floor, 0) =~= head);
        assert forall|j: int| 0 <= j < seed_list(facts, has_floor, 0).len() implies kept.subset_of(
            #[trigger] seed_list(facts, has_floor, 0)[j].0,
        ) by {
            assert(seed_list(facts, has_floor, 0)[j].0 == facts.planets@);
        }
    } else {
        lemma_seeds_keep_colonies(facts, has_floor, k - 1);
        let h = opt[k - 1];
        let m = opt.take(k - 1).map_values(per);
        assert(opt.take(k).map_values(per) =~= m.push(per(h)));
        m.lemma_flatten_push(per(h));
        let old_list = seed_list(facts, has_floor, k - 1);
        let new_list = seed_list(facts, has_floor, k);
        assert(new_list =~= old_list + per(h));
        assert(opt.to_set().contains(h));
        assert(!facts.colonized@.contains(h));
        assert forall|j: int| 0 <= j < new_list.len() implies kept.subset_of(
            #[trigger] new_list[j].0,
        ) by {
            if j < old_list.len() {
                assert(new_list[j] == old_list[j]);
            } else {
                assert(new_list[j] == per(h)[j - old_list.len()]);
                assert(new_list[j].0 == facts.planets@.remove(h));
            }
        }
    }
}

/// A copy of `set`.
fn copy_set(set: &HashSet<u64>) -> (r: HashSet<u64>)
    ensures
        r@ == set@,
{
    broadcast use vstd::std_specs::hash::group_hash_axioms;

    let mut r: HashSet<u64> = HashSet::new();
    for k in it: set.iter()
        invariant
            it.seq() == spec_hash_keys_iter(set).remaining(),
            r@ == it.seq().take(it.index()).unref().to_set(),
    {
        let ghost before = it.seq().take(it.index()).unref();
        r.insert(*k);
        proof {
            let after = it.seq().take(it.index() + 1).unref();
            assert(after =~= before.push(*k));
            before.lemma_push_to_set_commute(*k);
        }
    }
    proof {
        assert(spec_hash_keys_iter(set).remaining().take(spec_hash_keys_iter(set).remaining().len() as int)
            =~= spec_hash_keys_iter(set).remaining());
    }
    r
}

/// A copy of `set` without `h`.
fn set_without(set: &HashSet<u64>, h: u64) -> (r: HashSet<u64>)
    ensures
        r@ == set@.remove(h),
{
    broadcast use vstd::std_specs::hash::group_hash_axioms;

    let mut r = copy_set(set);
    r.remove(&h);
    r
}

/// Append one seed plan for `active` per free-port value.
fn push_seeds(
    facts: &SystemFacts,
    ctx: &SearchContext,
    active: &HashSet<u64>,
    free_ports: &[bool],
    seeds: &mut Vec<SystemPlan>,
)
    ensures
        final(seeds)@.len() == old(seeds)@.len() + free_ports@.len(),
        forall|j: int| 0 <= j < old(seeds)@.len() ==> #[trigger] final(seeds)@[j] == old(seeds)@[j],
        forall|j: int|
            0 <= j < free_ports@.len() ==> is_seed_plan(
                *facts,
                *ctx,
                active@,
                free_ports@[j],
                #[trigger] final(seeds)@[old(seeds)@.len() + j],
            ),
{
    let mut i: usize = 0;
    while i < free_ports.len()
        invariant
            0 <= i <= free_ports@.len(),
            seeds@.len() == old(seeds)@.len() + i,
            forall|j: int| 0 <= j < old(seeds)@.len() ==> #[trigger] seeds@[j] == old(seeds)@[j],
            forall|j: int|
                0 <= j < i ==> is_seed_plan(
                    *facts,
                    *ctx,
                    active@,
                    free_ports@[j],
                    #[trigger] seeds@[old(seeds)@.len() + j],
                ),
        decreases free_ports@.len() - i,
    {
        seeds.push(build_system_plan(facts, ctx, active, free_ports[i]));
        i = i + 1;
    }
}

/// Whether seeding goes on: only while less than the deadline has passed.
pub fn continue_seeding(elapsed_nanos: u128, deadline_nanos: u128) -> (go: bool)
    ensures
        go == (elapsed_nanos < deadline_nanos),
{
    elapsed_nanos < deadline_nanos
}

/// One step of planet-set seeding, given how long the seeding has run: once
/// the deadline has passed it stops and adds nothing (returning `true`);
/// otherwise it adds the seeds that leave planet `h` out (none when that
/// would leave no planet), one per free-port value in `free_ports`.
pub fn seed_drop_one(
    facts: &SystemFacts,
    ctx: &SearchContext,
    all: &HashSet<u64>,
    free_ports: &[bool],
    h: u64,
    elapsed_nanos: u128,
    deadline_nanos: u128,
    seeds: &mut Vec<SystemPlan>,
) -> (stop: bool)
    requires
        all@ == facts.planets@,
    ensures
        stop == (elapsed_nanos >= deadline_nanos),
        stop ==> final(seeds)@ == old(seeds)@,
        !stop ==> {
            let added = if facts.planets@.remove(h).is_empty() {
                Seq::<bool>::empty()
            } else {
                free_ports@
            };
            &&& final(seeds)@.len() == old(seeds)@.len() + added.len()
            &&& forall|j: int| 0 <= j < old(seeds)@.len() ==> #[trigger] final(seeds)@[j] == old(seeds)@[j]
            &&& forall|k: int|
                0 <= k < added.len() ==> is_seed_plan(
                    *facts,
                    *ctx,
                    facts.planets@.remove(h),
                    added[k],
                    #[trigger] final(seeds)@[old(seeds)@.len() + k],
                )
        },
{
    if !continue_seeding(elapsed_nanos, deadline_nanos) {
        return true;
    }
    let trial = set_without(all, h);
    if !trial.is_empty() {
        push_seeds(facts, ctx, &trial, free_ports, seeds);
    }
    false
}

/// The seed plans of the climb over planet sets: every planet developed,
/// then each planet without a colony left out in turn (in increasing hash
/// order), each with every seeded free-port value. Colonizing everything is
/// often infeasible for a system-wide goal, which is why the one-planet
/// drops are seeded too. Once `deadline` has passed since `start`, no
/// further planet is left out; the seeds are then those of the planets
/// tried so far.
pub fn planet_set_seed_plans(
    facts: &SystemFacts,
    ctx: &SearchContext,
    has_floor: bool,
    start: Instant,
    deadline: Duration,
) -> (seeds: Vec<SystemPlan>)
    ensures
        exists|k: int|
            0 <= k <= optional_planets(*facts).len() && {
                let list = #[trigger] seed_list(*facts, has_floor, k);
                &&& seeds@.len() == list.len()
                &&& forall|j: int|
                    0 <= j < list.len() ==> is_seed_plan(
                        *facts,
                        *ctx,
                        list[j].0,
                        list[j].1,
                        #[trigger] seeds@[j],
                    )
            },
{
    broadcast use vstd::std_specs::hash::group_hash_axioms;

    let mut optional: Vec<u64> = Vec::new();
    for h in it: facts.planets.iter()
        invariant
            it.seq() == spec_hash_keys_iter(&facts.planets).remaining(),
            optional@ == it.seq().take(it.index()).unref().filter(
                |k: u64| !facts.colonized@.contains(k),
            ),
    {
        let ghost before = it.seq().take(it.index()).unref();
        proof {
            let after = it.seq().take(it.index() + 1).unref();
            assert(after =~= before.push(*h));
            before.lemma_filter_push(*h, |k: u64| !facts.colonized@.contains(k));
        }
        if !facts.colonized.contains(h) {
            optional.push(*h);
        }
    }
    let ghost all_keys = spec_hash_keys_iter(&facts.planets).remaining().unref();
    proof {
        assert(spec_hash_keys_iter(&facts.planets).remaining().take(
            spec_hash_keys_iter(&facts.planets).remaining().len() as int,
        ).unref() =~= all_keys);
        let pred = |k: u64| !facts.colonized@.contains(k);
        assert(all_keys.to_set() == facts.planets@);
        lemma_filter_no_duplicates(all_keys, pred);
        assert forall|k: u64| optional@.contains(k) <==> facts.planets@.difference(
            facts.colonized@,
        ).contains(k) by {
            if all_keys.contains(k) && pred(k) {
                let i = choose|i: int| 0 <= i < all_keys.len() && all_keys[i] == k;
                all_keys.lemma_filter_contains(pred, i);
            }
            if optional@.contains(k) {
                all_keys.lemma_filter_contains_rev(pred, k);
                let i = choose|i: int| 0 <= i < optional@.len() && optional@[i] == k;
                all_keys.lemma_filter_pred(pred, i);
            }
            assert(all_keys.to_set().contains(k) == all_keys.contains(k));
        }
        assert(optional@.to_set() =~= facts.planets@.difference(facts.colonized@));
    }
    let optional = sort_hashes(optional);
    proof {
        let pred = |k: u64| !facts.colonized@.contains(k);
        lemma_permutation_keeps_set(all_keys.filter(pred), optional@);
        lemma_sorted_hashes(facts.planets@.difference(facts.colonized@), optional@);
    }
    let free_ports = seed_free_ports(has_floor);
    let mut seeds: Vec<SystemPlan> = Vec::new();
    let all = copy_set(&facts.planets);
    if !all.is_empty() {
        push_seeds(facts, ctx, &all, free_ports, &mut seeds);
    }
    proof {
        assert(optional_planets(*facts).take(0) =~= Seq::<u64>::empty());
        let per = |h: u64| drop_one_seeds(*facts, has_floor, h);
        assert(optional_planets(*facts).take(0).map_values(per) =~= Seq::<Seq<(Set<u64>, bool)>>::empty());
        let list0 = seed_list(*facts, has_floor, 0);
        if facts.planets@.is_empty() {
            assert(list0 =~= Seq::<(Set<u64>, bool)>::empty());
        } else {
            assert(list0 =~= seeds_for(facts.planets@, has_floor));
            assert forall|j: int| 0 <= j < seeds@.len() implies is_seed_plan(
                *facts,
                *ctx,
                list0[j].0,
                list0[j].1,
                #[trigger] seeds@[j],
            ) by {
                assert(list0[j] == (facts.planets@, free_ports@[j]));
                assert(seeds@[j] == seeds@[0 + j]);
            }
        }
    }
    let ghost per_planet = |h: u64| drop_one_seeds(*facts, has_floor, h);
    let mut i: usize = 0;
    let ghost mut tried: int = 0;
    while i < optional.len()
        invariant_except_break
            0 <= i <= optional@.len(),
            tried == i,
        invariant
            0 <= tried <= optional@.len(),
            optional@ == optional_planets(*facts),
            all@ == facts.planets@,
            free_ports@ == seed_free_port_values(has_floor),
            per_planet == (|h: u64| drop_one_seeds(*facts, has_floor, h)),
            seeds@.len() == seed_list(*facts, has_floor, tried).len(),
            forall|j: int|
                0 <= j < seeds@.len() ==> is_seed_plan(
                    *facts,
                    *ctx,
                    seed_list(*facts, has_floor, tried)[j].0,
                    seed_list(*facts, has_floor, tried)[j].1,
                    #[trigger] seeds@[j],
                ),
        decreases optional@.len() - i,
    {
        let h = optional[i];
        let ghost before = seeds@;
        let elapsed = duration_as_nanos(&elapsed_since(&start));
        let stop = seed_drop_one(facts, ctx, &all, free_ports, h, elapsed, duration_as_nanos(&deadline), &mut seeds);
        if stop {
            break;
        }
        proof {
            let m = optional@.take(i as int).map_values(per_planet);
            assert(optional@.take(i + 1).map_values(per_planet) =~= m.push(per_planet(h)));
            m.lemma_flatten_push(per_planet(h));
            let head = if facts.planets@.is_empty() {
                Seq::empty()
            } else {
                seeds_for(facts.planets@, has_floor)
            };
            let old_list = seed_list(*facts, has_floor, i as int);
            let new_list = seed_list(*facts, has_floor, i + 1);
            assert(old_list == head + m.flatten());
            assert(new_list =~= old_list + per_planet(h));
            if facts.planets@.remove(h).is_empty() {
                assert(per_planet(h) =~= Seq::<(Set<u64>, bool)>::empty());
            }
            assert(seeds@.len() == new_list.len());
            assert forall|j: int| 0 <= j < seeds@.len() implies is_seed_plan(
                *facts,
                *ctx,
                new_list[j].0,
                new_list[j].1,
                #[trigger] seeds@[j],
            ) by {
                if j < before.len() {
                    assert(new_list[j] == old_list[j]);
                    assert(seeds@[j] == before[j]);
                } else {
                    let k = j - before.len();
                    assert(new_list[j] == per_planet(h)[k]);
                    if facts.planets@.remove(h).is_empty() {
                        assert(per_planet(h) =~= Seq::<(Set<u64>, bool)>::empty());
                    } else {
                        assert(per_planet(h)[k] == (facts.planets@.remove(h), free_ports@[k]));
                        assert(seeds@[j] == seeds@[before.len() + k]);
                    }
                }
            }
            tried = tried + 1;
        }
        i = i + 1;
    }
    seeds
}

/// The toggle flips offered on a developed planet, by toggle index: every
/// toggle but colonizing (that is the colonize flip), and item installs only
/// when colony items exist.
pub open spec fn toggle_flip_keys(h: u64, allow_install_items: bool) -> Seq<MoveKey> {
    let base = seq![
        MoveKey::ToggleFlip(h, 1),
        MoveKey::ToggleFlip(h, 2),
        MoveKey::ToggleFlip(h, 3),
        MoveKey::ToggleFlip(h, 4),
        MoveKey::ToggleFlip(h, 5),
    ];
    if allow_install_items {
        base.push(MoveKey::ToggleFlip(h, 6))
    } else {
        base
    }
}

/// The facilities planet `h` could build that its plan leaves out.
pub open spec fn missing_facilities(ctx: SearchContext, p: PlanetPlan, h: u64) -> Seq<FacilityType> {
    ctx.relevant(h).filter(|ft: FacilityType| !p.facilities@.contains(ft))
}

/// The moves on planet `h`: its colonize flip unless it already has a
/// colony; then, if the plan develops it, a drop of each planned facility
/// in declaration order, an add of each missing buildable facility, and its
/// toggle flips.
pub open spec fn planet_move_keys(
    facts: SystemFacts,
    ctx: SearchContext,
    plan: SystemPlan,
    h: u64,
) -> Seq<MoveKey> {
    let p = plan.planets@[h];
    (if facts.colonized@.contains(h) {
        Seq::empty()
    } else {
        seq![MoveKey::ColonizeFlip(h)]
    }) + if develops(facts, plan, h) {
        sorted_facilities(p.facilities@.to_set()).map_values(|ft: FacilityType| MoveKey::FacDrop(h, ft))
            + missing_facilities(ctx, p, h).map_values(|ft: FacilityType| MoveKey::FacAdd(h, ft))
            + toggle_flip_keys(h, ctx.allow_install_items)
    } else {
        Seq::empty()
    }
}

/// Every move the climb considers, in its fixed order: the relay flip when
/// a relay can be built or is built, then the moves of each planet in
/// increasing hash order.
pub open spec fn all_move_keys(facts: SystemFacts, ctx: SearchContext, plan: SystemPlan) -> Seq<
    MoveKey,
> {
    (if facts.stable_point_free || plan.makeshift_comm_relay {
        seq![MoveKey::RelayFlip]
    } else {
        Seq::empty()
    }) + sorted_hashes(plan.planets@.dom()).map_values(
        |h: u64| planet_move_keys(facts, ctx, plan, h),
    ).flatten()
}

/// Every toggle flip in `keys` names one of the seven toggles.
pub open spec fn toggle_indices_valid(keys: Seq<MoveKey>) -> bool {
    forall|j: int| 0 <= j < keys.len() ==> (#[trigger] keys[j] matches MoveKey::ToggleFlip(_, i) ==> i < 7)
}

fn planet_moves(facts: &SystemFacts, ctx: &SearchContext, plan: &SystemPlan, h: u64) -> (keys: Vec<
    MoveKey,
>)
    requires
        plan.planets@.contains_key(h),
    ensures
        keys@ == planet_move_keys(*facts, *ctx, *plan, h),
        toggle_indices_valid(keys@),
{
    broadcast use vstd::std_specs::hash::group_hash_axioms;

    let mut out: Vec<MoveKey> = Vec::new();
    if !facts.colonized.contains(&h) {
        out.push(MoveKey::ColonizeFlip(h));
    }
    let ghost head = out@;
    proof {
        assert(head =~= (if facts.colonized@.contains(h) {
            Seq::empty()
        } else {
            seq![MoveKey::ColonizeFlip(h)]
        }));
    }
    if !plan_develops(facts, plan, h) {
        proof {
            assert(out@ =~= planet_move_keys(*facts, *ctx, *plan, h));
        }
        return out;
    }
    let p = match plan.planets.get(&h) {
        Some(p) => p,
        None => {
            return out;
        },
    };
    let present = sort_facilities(&p.facilities);
    let mut i: usize = 0;
    while i < present.len()
        invariant
            0 <= i <= present@.len(),
            out@ == head + present@.take(i as int).map_values(
                |ft: FacilityType| MoveKey::FacDrop(h, ft),
            ),
        decreases present@.len() - i,
    {
        out.push(MoveKey::FacDrop(h, present[i]));
        proof {
            assert(present@.take(i + 1) =~= present@.take(i as int).push(present@[i as int]));
            assert(present@.take(i + 1).map_values(|ft: FacilityType| MoveKey::FacDrop(h, ft))
                =~= present@.take(i as int).map_values(
                |ft: FacilityType| MoveKey::FacDrop(h, ft),
            ).push(MoveKey::FacDrop(h, present@[i as int])));
        }
        i = i + 1;
    }
    proof {
        assert(present@.take(i as int) =~= present@);
    }
    let ghost drops = out@;
    let relevant = ctx.relevant_facilities(h);
    let mut j: usize = 0;
    while j < relevant.len()
        invariant
            0 <= j <= relevant@.len(),
            relevant@ == ctx.relevant(h),
            out@ == drops + relevant@.take(j as int).filter(
                |ft: FacilityType| !p.facilities@.contains(ft),
            ).map_values(|ft: FacilityType| MoveKey::FacAdd(h, ft)),
        decreases relevant@.len() - j,
    {
        let ft = relevant[j];
        let ghost pred = |f: FacilityType| !p.facilities@.contains(f);
        proof {
            let pre = relevant@.take(j as int);
            assert(relevant@.take(j + 1) =~= pre.push(ft));
            pre.lemma_filter_push(ft, pred);
        }
        if !contains_facility(&p.facilities, ft) {
            out.push(MoveKey::FacAdd(h, ft));
            proof {
                let f = relevant@.take(j as int).filter(pred);
                assert(f.push(ft).map_values(|x: FacilityType| MoveKey::FacAdd(h, x)) =~= f.map_values(
                    |x: FacilityType| MoveKey::FacAdd(h, x),
                ).push(MoveKey::FacAdd(h, ft)));
            }
        }
        j = j + 1;
    }
    proof {
        assert(relevant@.take(j as int) =~= relevant@);
    }
    out.push(MoveKey::ToggleFlip(h, 1));
    out.push(MoveKey::ToggleFlip(h, 2));
    out.push(MoveKey::ToggleFlip(h, 3));
    out.push(MoveKey::ToggleFlip(h, 4));
    out.push(MoveKey::ToggleFlip(h, 5));
    if ctx.allow_install_items {
        out.push(MoveKey::ToggleFlip(h, 6));
    }
    proof {
        assert(out@ =~= planet_move_keys(*facts, *ctx, *plan, h));
        assert forall|k: int| 0 <= k < out@.len() implies (#[trigger] out@[k] matches MoveKey::ToggleFlip(
            _,
            i,
        ) ==> i < 7) by {
            if k >= drops.len() {
                let adds = relevant@.filter(|ft: FacilityType| !p.facilities@.contains(ft));
                if k >= drops.len() + adds.len() {
                } else {
                    assert(out@[k] == MoveKey::FacAdd(h, adds[k - drops.len()]));
                }
            } else if k >= head.len() {
                assert(out@[k] == MoveKey::FacDrop(h, present@[k - head.len()]));
            }
        }
    }
    out
}

/// Every move the climb considers for `plan`, in its fixed order.
pub fn move_keys(facts: &SystemFacts, ctx: &SearchContext, plan: &SystemPlan) -> (keys: Vec<MoveKey>)
    ensures
        keys@ == all_move_keys(*facts, *ctx, *plan),
        toggle_indices_valid(keys@),
{
    broadcast use vstd::std_specs::hash::group_hash_axioms;

    let mut out: Vec<MoveKey> = Vec::new();
    if facts.stable_point_free || plan.makeshift_comm_relay {
        out.push(MoveKey::RelayFlip);
    }
    let ghost head = out@;
    let hashes = sorted_plan_hashes(&plan.planets);
    proof {
        lemma_sorted_hashes(plan.planets@.dom(), hashes@);
    }
    let ghost per_planet = |h: u64| planet_move_keys(*facts, *ctx, *plan, h);
    let mut i: usize = 0;
    while i < hashes.len()
        invariant
            0 <= i <= hashes@.len(),
            hashes@ == sorted_hashes(plan.planets@.dom()),
            hashes@.to_set() == plan.planets@.dom(),
            per_planet == (|h: u64| planet_move_keys(*facts, *ctx, *plan, h)),
            out@ == head + hashes@.take(i as int).map_values(per_planet).flatten(),
            toggle_indices_valid(out@),
            head.len() <= 1,
            head.len() == 1 ==> head[0] == MoveKey::RelayFlip,
        decreases hashes@.len() - i,
    {
        let h = hashes[i];
        proof {
            assert(hashes@.to_set().contains(h));
        }
        let mut keys_h = planet_moves(facts, ctx, plan, h);
        let ghost before = out@;
        let ghost chunk = keys_h@;
        out.append(&mut keys_h);
        proof {
            let m = hashes@.take(i as int).map_values(per_planet);
            assert(hashes@.take(i + 1).map_values(per_planet) =~= m.push(per_planet(h)));
            m.lemma_flatten_push(per_planet(h));
            assert(out@ =~= before + chunk);
            assert(out@ =~= head + hashes@.take(i + 1).map_values(per_planet).flatten());
            assert forall|k: int| 0 <= k < out@.len() implies (#[trigger] out@[k] matches MoveKey::ToggleFlip(
                _,
                t,
            ) ==> t < 7) by {
                if k < before.len() {
                    assert(out@[k] == before[k]);
                } else {
                    assert(out@[k] == chunk[k - before.len()]);
                }
            }
        }
        i = i + 1;
    }
    proof {
        assert(hashes@.take(i as int) =~= hashes@);
        assert(out@ =~= all_move_keys(*facts, *ctx, *plan));
    }
    out
}

/// The moves of `keys` that apply to `plan`.
pub open spec fn applicable_moves(facts: SystemFacts, plan: SystemPlan, keys: Seq<MoveKey>) -> Seq<
    MoveKey,
> {
    keys.filter(|k: MoveKey| move_applies(facts, plan, k))
}

/// Every plan one move away from `plan`, in the order of `move_keys`.
pub fn one_move_neighbors(facts: &SystemFacts, ctx: &SearchContext, plan: &SystemPlan) -> (out: Vec<
    SystemPlan,
>)
    ensures
        ({
            let kept = applicable_moves(*facts, *plan, all_move_keys(*facts, *ctx, *plan));
            &&& out@.len() == kept.len()
            &&& forall|j: int|
                0 <= j < kept.len() ==> is_move_result(*facts, *ctx, *plan, kept[j], #[trigger] out@[j])
        }),
{
    let keys = move_keys(facts, ctx, plan);
    let ghost applies = |k: MoveKey| move_applies(*facts, *plan, k);
    let mut out: Vec<SystemPlan> = Vec::new();
    let mut i: usize = 0;
    while i < keys.len()
        invariant
            0 <= i <= keys@.len(),
            keys@ == all_move_keys(*facts, *ctx, *plan),
            toggle_indices_valid(keys@),
            applies == (|k: MoveKey| move_applies(*facts, *plan, k)),
            out@.len() == keys@.take(i as int).filter(applies).len(),
            forall|j: int|
                0 <= j < out@.len() ==> is_move_result(
                    *facts,
                    *ctx,
                    *plan,
                    keys@.take(i as int).filter(applies)[j],
                    #[trigger] out@[j],
                ),
        decreases keys@.len() - i,
    {
        let key = keys[i];
        proof {
            let pre = keys@.take(i as int);
            assert(keys@.take(i + 1) =~= pre.push(key));
            pre.lemma_filter_push(key, applies);
            assert(key matches MoveKey::ToggleFlip(_, t) ==> t < 7);
        }
        match apply_move(facts, ctx, plan, key) {
            Some(t) => {
                out.push(t);
            },
            None => {},
        }
        i = i + 1;
    }
    proof {
        assert(keys@.take(i as int) =~= keys@);
    }
    out
}

/// A swap on planet `h`: drop facility `d` and add facility `a`.
pub open spec fn planet_swaps(facts: SystemFacts, ctx: SearchContext, plan: SystemPlan, h: u64) -> Seq<
    (u64, FacilityType, FacilityType),
> {
    if develops(facts, plan, h) {
        let p = plan.planets@[h];
        let missing = missing_facilities(ctx, p, h);
        sorted_facilities(p.facilities@.to_set()).map_values(
            |d: FacilityType| missing.map_values(|a: FacilityType| (h, d, a)),
        ).flatten()
    } else {
        Seq::empty()
    }
}

/// Every swap the climb considers, planets in increasing hash order; on a
/// developed planet, each planned facility (in declaration order) paired
/// with each missing buildable one.
pub open spec fn all_swaps(facts: SystemFacts, ctx: SearchContext, plan: SystemPlan) -> Seq<
    (u64, FacilityType, FacilityType),
> {
    sorted_hashes(plan.planets@.dom()).map_values(|h: u64| planet_swaps(facts, ctx, plan, h)).flatten()
}

/// `t` is `plan` with the swap applied: on planet `h`, facility `d` dropped,
/// then `a` and the lower tiers of its upgrade chain added.
pub open spec fn is_swap_result(plan: SystemPlan, swap: (u64, FacilityType, FacilityType), t: SystemPlan) -> bool {
    let (h, d, a) = swap;
    let p = plan.planets@[h];
    let q = t.planets@[h];
    &&& t.makeshift_comm_relay == plan.makeshift_comm_relay
    &&& t.planets@ == plan.planets@.insert(h, q)
    &&& same_toggles(p, q)
    &&& q.facilities@ == with_facilities(
        with_facilities(p.facilities@.filter(|f: FacilityType| f != d), seq![a]),
        facility_predecessors(a),
    )
}

fn swap_plan(plan: &SystemPlan, h: u64, p: &PlanetPlan, d: FacilityType, a: FacilityType) -> (t:
    SystemPlan)
    requires
        plan.planets@.contains_key(h),
        plan.planets@[h] == *p,
    ensures
        is_swap_result(*plan, (h, d, a), t),
{
    let mut facilities = without_facility(&p.facilities, d);
    let single: [FacilityType; 1] = [a];
    proof {
        assert(single@ =~= seq![a]);
    }
    add_facilities(&mut facilities, single.as_slice());
    add_facilities(&mut facilities, upgrade_predecessors(a));
    let q = with_facility_list(p, facilities);
    let t = with_planet(plan, h, q);
    proof {
        assert(t.planets@[h] == q);
    }
    t
}

/// The facilities planet `h` could build that `p` leaves out.
fn missing_list(ctx: &SearchContext, p: &PlanetPlan, h: u64) -> (r: Vec<FacilityType>)
    ensures
        r@ == missing_facilities(*ctx, *p, h),
{
    let relevant = ctx.relevant_facilities(h);
    let ghost pred = |f: FacilityType| !p.facilities@.contains(f);
    let mut r: Vec<FacilityType> = Vec::new();
    let mut j: usize = 0;
    while j < relevant.len()
        invariant
            0 <= j <= relevant@.len(),
            relevant@ == ctx.relevant(h),
            pred == (|f: FacilityType| !p.facilities@.contains(f)),
            r@ == relevant@.take(j as int).filter(pred),
        decreases relevant@.len() - j,
    {
        let ft = relevant[j];
        proof {
            let pre = relevant@.take(j as int);
            assert(relevant@.take(j + 1) =~= pre.push(ft));
            pre.lemma_filter_push(ft, pred);
        }
        if !contains_facility(&p.facilities, ft) {
            r.push(ft);
        }
        j = j + 1;
    }
    proof {
        assert(relevant@.take(j as int) =~= relevant@);
    }
    r
}

/// Append the swap neighbors on planet `h` to `out`.
fn push_planet_swaps(
    facts: &SystemFacts,
    ctx: &SearchContext,
    plan: &SystemPlan,
    h: u64,
    out: &mut Vec<SystemPlan>,
)
    requires
        plan.planets@.contains_key(h),
    ensures
        final(out)@.len() == old(out)@.len() + planet_swaps(*facts, *ctx, *plan, h).len(),
        forall|j: int| 0 <= j < old(out)@.len() ==> #[trigger] final(out)@[j] == old(out)@[j],
        forall|j: int|
            0 <= j < planet_swaps(*facts, *ctx, *plan, h).len() ==> is_swap_result(
                *plan,
                planet_swaps(*facts, *ctx, *plan, h)[j],
                #[trigger] final(out)@[old(out)@.len() + j],
            ),
{
    broadcast use vstd::std_specs::hash::group_hash_axioms;

    if !plan_develops(facts, plan, h) {
        return;
    }
    let p = match plan.planets.get(&h) {
        Some(p) => p,
        None => {
            return;
        },
    };
    let present = sort_facilities(&p.facilities);
    let missing = missing_list(ctx, p, h);
    let ghost row = |d: FacilityType| missing@.map_values(|a: FacilityType| (h, d, a));
    let ghost start = out@.len();
    let mut di: usize = 0;
    while di < present.len()
        invariant
            0 <= di <= present@.len(),
            plan.planets@.contains_key(h),
            plan.planets@[h] == *p,
            row == (|d: FacilityType| missing@.map_values(|a: FacilityType| (h, d, a))),
            out@.len() == start + present@.take(di as int).map_values(row).flatten().len(),
            forall|j: int| 0 <= j < start ==> #[trigger] out@[j] == old(out)@[j],
            start == old(out)@.len(),
            forall|j: int|
                0 <= j < present@.take(di as int).map_values(row).flatten().len() ==> is_swap_result(
                    *plan,
                    present@.take(di as int).map_values(row).flatten()[j],
                    #[trigger] out@[start + j],
                ),
        decreases present@.len() - di,
    {
        let d = present[di];
        let ghost done = present@.take(di as int).map_values(row).flatten();
        let ghost base = out@.len();
        let mut ai: usize = 0;
        while ai < missing.len()
            invariant
                0 <= ai <= missing@.len(),
                plan.planets@.contains_key(h),
                plan.planets@[h] == *p,
                base == start + done.len(),
                out@.len() == base + ai,
                forall|j: int| 0 <= j < start ==> #[trigger] out@[j] == old(out)@[j],
                forall|j: int|
                    0 <= j < done.len() ==> is_swap_result(*plan, done[j], #[trigger] out@[start + j]),
                forall|j: int|
                    0 <= j < ai ==> is_swap_result(*plan, (h, d, missing@[j]), #[trigger] out@[base + j]),
            decreases missing@.len() - ai,
        {
            let t = swap_plan(plan, h, p, d, missing[ai]);
            out.push(t);
            ai = ai + 1;
        }
        proof {
            let m = present@.take(di as int).map_values(row);
            assert(present@.take(di + 1).map_values(row) =~= m.push(row(d)));
            m.lemma_flatten_push(row(d));
            let now = present@.take(di + 1).map_values(row).flatten();
            assert(now =~= done + row(d));
            assert forall|j: int| 0 <= j < now.len() implies is_swap_result(
                *plan,
                now[j],
                #[trigger] out@[start + j],
            ) by {
                if j < done.len() {
                    assert(now[j] == done[j]);
                } else {
                    let k = j - done.len();
                    assert(now[j] == row(d)[k]);
                    assert(row(d)[k] == (h, d, missing@[k]));
                    assert(out@[start + j] == out@[base + k]);
                }
            }
        }
        di = di + 1;
    }
    proof {
        assert(present@.take(di as int) =~= present@);
        assert(present@ == sorted_facilities(p.facilities@.to_set()));
        assert(missing@ == missing_facilities(*ctx, *p, h));
        assert(present@.map_values(row) =~= sorted_facilities(p.facilities@.to_set()).map_values(
            |d: FacilityType| missing_facilities(*ctx, *p, h).map_values(|a: FacilityType| (h, d, a)),
        ));
    }
}

/// Every plan one swap away from `plan`: on a developed planet, drop one
/// planned facility and add one missing buildable facility with its upgrade
/// chain, in the order of `all_swaps`.
pub fn swap_neighbors(facts: &SystemFacts, ctx: &SearchContext, plan: &SystemPlan) -> (out: Vec<
    SystemPlan,
>)
    ensures
        out@.len() == all_swaps(*facts, *ctx, *plan).len(),
        forall|j: int|
            0 <= j < out@.len() ==> is_swap_result(
                *plan,
                all_swaps(*facts, *ctx, *plan)[j],
                #[trigger] out@[j],
            ),
{
    let hashes = sorted_plan_hashes(&plan.planets);
    proof {
        lemma_sorted_hashes(plan.planets@.dom(), hashes@);
    }
    let ghost per_planet = |h: u64| planet_swaps(*facts, *ctx, *plan, h);
    let mut out: Vec<SystemPlan> = Vec::new();
    let mut i: usize = 0;
    while i < hashes.len()
        invariant
            0 <= i <= hashes@.len(),
            hashes@ == sorted_hashes(plan.planets@.dom()),
            hashes@.to_set() == plan.planets@.dom(),
            per_planet == (|h: u64| planet_swaps(*facts, *ctx, *plan, h)),
            out@.len() == hashes@.take(i as int).map_values(per_planet).flatten().len(),
            forall|j: int|
                0 <= j < out@.len() ==> is_swap_result(
                    *plan,
                    hashes@.take(i as int).map_values(per_planet).flatten()[j],
                    #[trigger] out@[j],
                ),
        decreases hashes@.len() - i,
    {
        let h = hashes[i];
        proof {
            assert(hashes@.to_set().contains(h));
        }
        let ghost done = hashes@.take(i as int).map_values(per_planet).flatten();
        let ghost before = out@;
        push_planet_swaps(facts, ctx, plan, h, &mut out);
        proof {
            let m = hashes@.take(i as int).map_values(per_planet);
            assert(hashes@.take(i + 1).map_values(per_planet) =~= m.push(per_planet(h)));
            m.lemma_flatten_push(per_planet(h));
            let now = hashes@.take(i + 1).map_values(per_planet).flatten();
            assert(now =~= done + per_planet(h));
            assert forall|j: int| 0 <= j < out@.len() implies is_swap_result(
                *plan,
                now[j],
                #[trigger] out@[j],
            ) by {
                if j < before.len() {
                    assert(out@[j] == before[j]);
                    assert(now[j] == done[j]);
                } else {
                    let k = j - before.len();
                    assert(now[j] == per_planet(h)[k]);
                    assert(out@[j] == out@[before.len() + k]);
                }
            }
        }
        i = i + 1;
    }
    proof {
        assert(hashes@.take(i as int) =~= hashes@);
    }
    out
}

/// Whether accepting `accepted` can change the value of the parked move
/// `parked`, so that it must be re-scored: colonize and relay flips always;
/// moves on the same facility type; and moves on the same planet, or any move
/// after a system-wide one.
pub open spec fn must_wake(accepted: MoveKey, parked: MoveKey) -> bool {
    ||| parked is ColonizeFlip || parked is RelayFlip
    ||| (move_facility(accepted) is Some && move_facility(accepted) == move_facility(parked))
    ||| move_planet(accepted) is None
    ||| move_planet(parked) == move_planet(accepted)
}

/// Whether a parked move must be re-scored after `accepted` was applied.
pub fn wake_after_accept(accepted: MoveKey, parked: MoveKey) -> (b: bool)
    ensures
        b == must_wake(accepted, parked),
{
    match parked {
        MoveKey::ColonizeFlip(_) | MoveKey::RelayFlip => {
            return true;
        },
        _ => {},
    }
    let fa = move_facility_type(accepted);
    let fp = move_facility_type(parked);
    match (fa, fp) {
        (Some(a), Some(p)) => {
            if a == p {
                return true;
            }
        },
        _ => {},
    }
    match move_locality(accepted) {
        None => true,
        Some(h) => match move_locality(parked) {
            Some(hp) => hp == h,
            None => false,
        },
    }
}

/// The move acts on planet `h`.
pub open spec fn acts_on_planet(key: MoveKey, h: u64) -> bool {
    ||| key == MoveKey::ColonizeFlip(h)
    ||| exists|ft: FacilityType| key == MoveKey::FacDrop(h, ft) || key == MoveKey::FacAdd(h, ft)
    ||| exists|i: u8| key == MoveKey::ToggleFlip(h, i)
}

/// The move adds or drops a facility of type `ft`, on whatever planet.
pub open spec fn acts_on_facility(key: MoveKey, ft: FacilityType) -> bool {
    exists|h: u64| key == MoveKey::FacDrop(h, ft) || key == MoveKey::FacAdd(h, ft)
}

/// Law: an accepted move wakes every parked move on the same planet,
/// whatever kind either move is: its score may have changed.
pub proof fn lemma_wake_same_planet(accepted: MoveKey, parked: MoveKey, h: u64)
    requires
        acts_on_planet(accepted, h),
        acts_on_planet(parked, h),
    ensures
        must_wake(accepted, parked),
{
}

/// Law: a parked colonize or relay flip is always woken, every parked move is
/// woken after a relay flip (a system-wide move), and a move on a facility
/// type wakes parked moves on the same type on any planet.
pub proof fn lemma_wake_always(accepted: MoveKey, parked: MoveKey, ft: FacilityType)
    ensures
        parked is ColonizeFlip || parked is RelayFlip ==> must_wake(accepted, parked),
        accepted is RelayFlip ==> must_wake(accepted, parked),
        acts_on_facility(accepted, ft) && acts_on_facility(parked, ft) ==> must_wake(accepted, parked),
{
}

/// Law: nothing else is woken: a parked facility or toggle move on another
/// planet than a planet move that was accepted, and on another facility type,
/// keeps its score.
pub proof fn lemma_wake_only_these(accepted: MoveKey, parked: MoveKey, ha: u64, hp: u64)
    requires
        acts_on_planet(accepted, ha),
        acts_on_planet(parked, hp),
        ha != hp,
        !(parked is ColonizeFlip),
        forall|ft: FacilityType| !(acts_on_facility(accepted, ft) && acts_on_facility(parked, ft)),
    ensures
        !must_wake(accepted, parked),
{
    match accepted {
        MoveKey::FacDrop(_, ft) | MoveKey::FacAdd(_, ft) => {
            assert(!(acts_on_facility(accepted, ft) && acts_on_facility(parked, ft)));
        },
        _ => {},
    }
}

} // verus!
