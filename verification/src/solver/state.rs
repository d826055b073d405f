use vstd::prelude::*;

use std::collections::HashMap;

use crate::constants::{
    facility_code, facility_multiplies_income, facility_name, item_code, item_name, ColonyItem,
    FacilityType,
};
use crate::text::{decimal, push_decimal, title_case, title_text, u64_to_string};

verus! {

/// One step of a colony plan. Planets are named by the hash of their name.
#[derive(Debug, Clone, Copy, PartialEq, Eq, Hash, Structural)]
pub enum Action {
    AddFacility(u64, FacilityType),
    AddImprovement(u64, FacilityType),
    AddAlphaCore(u64, FacilityType),
    InstallItem(u64, FacilityType, ColonyItem),
    SetFreePort(u64, bool),
    SetHazardPay(u64, bool),
    /// Upgrade the administrator from the base one to an alpha core.
    UpgradeAdmin(u64),
    /// System-wide stable-point development.
    BuildMakeshiftCommRelay,
    Colonize(u64),
    /// Wait the given number of months.
    Wait(u32),
}

pub const HASH_PRIME1: u64 = 11400714785074694791;
pub const HASH_PRIME2: u64 = 14029467366897019727;
pub const HASH_PRIME3: u64 = 1609587929392839161;
pub const SEQ_PRIME: u64 = 0x100000001b3;
pub const SEQ_OFFSET: u64 = 0xcbf29ce484222325;

/// The action's kind as a number from 1 to 10, mixed into its hash so that
/// different kinds of action on the same planet do not collide.
pub open spec fn action_discriminant(a: Action) -> u64 {
    match a {
        Action::AddFacility(..) => 1,
        Action::AddImprovement(..) => 2,
        Action::AddAlphaCore(..) => 3,
        Action::InstallItem(..) => 4,
        Action::SetFreePort(..) => 5,
        Action::SetHazardPay(..) => 6,
        Action::UpgradeAdmin(..) => 7,
        Action::BuildMakeshiftCommRelay => 8,
        Action::Colonize(..) => 9,
        Action::Wait(..) => 10,
    }
}

/// The payload part of the action hash, before the kind is mixed in.
pub open spec fn action_payload_hash(a: Action) -> u64 {
    match a {
        Action::AddFacility(p, f) => p.wrapping_mul(HASH_PRIME3) ^ (facility_code(f) << 8u64),
        Action::AddImprovement(p, f) => p.wrapping_mul(HASH_PRIME3) ^ (facility_code(f) << 8u64),
        Action::AddAlphaCore(p, f) => p.wrapping_mul(HASH_PRIME3) ^ (facility_code(f) << 8u64),
        Action::InstallItem(p, f, i) => p.wrapping_mul(HASH_PRIME3) ^ (facility_code(f) << 8u64)
            ^ (item_code(i) << 16u64),
        Action::SetFreePort(p, b) => p.wrapping_mul(HASH_PRIME3) ^ ((if b { 1u64 } else { 0u64 })
            << 8u64),
        Action::SetHazardPay(p, b) => p.wrapping_mul(HASH_PRIME3) ^ ((if b { 1u64 } else { 0u64 })
            << 8u64),
        Action::UpgradeAdmin(p) => p.wrapping_mul(HASH_PRIME3),
        Action::BuildMakeshiftCommRelay => HASH_PRIME3,
        Action::Colonize(p) => p.wrapping_mul(HASH_PRIME3),
        Action::Wait(m) => (m as u64).wrapping_mul(HASH_PRIME3),
    }
}

/// The 64-bit hash of one action.
#[verifier::opaque]
pub open spec fn action_hash(a: Action) -> u64 {
    let combined = action_payload_hash(a) ^ action_discriminant(a).wrapping_mul(HASH_PRIME2);
    combined.wrapping_mul(HASH_PRIME1) ^ (combined >> 33u64).wrapping_add(HASH_PRIME2)
}

/// The splitmix64 finalizer.
#[verifier::opaque]
pub open spec fn spec_mix64(x: u64) -> u64 {
    let x1 = (x ^ (x >> 30u64)).wrapping_mul(0xbf58476d1ce4e5b9u64);
    let x2 = (x1 ^ (x1 >> 27u64)).wrapping_mul(0x94d049bb133111ebu64);
    x2 ^ (x2 >> 31u64)
}

pub open spec fn is_wait(a: Action) -> bool {
    a is Wait
}

/// The state threaded through a sequence hash: the running sequence hash, the
/// hash of the open segment, whether the open segment is a run of waits, and
/// whether any action has been seen.
pub struct SeqHashState {
    pub seq_hash: u64,
    pub seg_hash: u64,
    pub in_wait: bool,
    pub started: bool,
}

/// Fold a finished segment into the sequence hash.
pub open spec fn close_segment(seq_hash: u64, seg_hash: u64) -> u64 {
    (seq_hash ^ spec_mix64(seg_hash)).wrapping_mul(SEQ_PRIME)
}

/// Feed one action into the state: a change between waiting and acting
/// closes the open segment; the action's mixed hash is added into the
/// segment.
pub open spec fn seq_hash_step(st: SeqHashState, a: Action) -> SeqHashState {
    let boundary = st.started && is_wait(a) != st.in_wait;
    let seq_hash = if boundary { close_segment(st.seq_hash, st.seg_hash) } else { st.seq_hash };
    let seg = if boundary { 0u64 } else { st.seg_hash };
    SeqHashState {
        seq_hash,
        seg_hash: seg.wrapping_add(spec_mix64(action_hash(a))),
        in_wait: is_wait(a),
        started: true,
    }
}

/// Feed a sequence of actions into the state, front to back.
pub open spec fn seq_hash_run(st: SeqHashState, actions: Seq<Action>) -> SeqHashState
    decreases actions.len(),
{
    if actions.len() == 0 {
        st
    } else {
        seq_hash_run(seq_hash_step(st, actions[0]), actions.drop_first())
    }
}

pub open spec fn seq_hash_initial() -> SeqHashState {
    SeqHashState { seq_hash: SEQ_OFFSET, seg_hash: 0, in_wait: false, started: false }
}

/// The hash of an action sequence: maximal runs of waits and of non-waits
/// form segments; a segment's hash is the wrapping sum of its actions' mixed
/// hashes, and the segments are chained in order.
pub open spec fn action_sequence_hash(actions: Seq<Action>) -> u64 {
    let st = seq_hash_run(seq_hash_initial(), actions);
    if st.started {
        close_segment(st.seq_hash, st.seg_hash)
    } else {
        st.seq_hash
    }
}

/// Running the fold over a concatenation runs it over each part in turn.
proof fn lemma_seq_hash_run_concat(st: SeqHashState, x: Seq<Action>, y: Seq<Action>)
    ensures
        seq_hash_run(st, x + y) == seq_hash_run(seq_hash_run(st, x), y),
    decreases x.len(),
{
    if x.len() == 0 {
        assert(x + y =~= y);
    } else {
        assert((x + y).drop_first() =~= x.drop_first() + y);
        lemma_seq_hash_run_concat(seq_hash_step(st, x[0]), x.drop_first(), y);
    }
}

/// Two actions of the same kind (both waits, or both non-waits) can be fed
/// in either order.
proof fn lemma_seq_hash_step_commutes(st: SeqHashState, a: Action, b: Action)
    requires
        is_wait(a) == is_wait(b),
    ensures
        seq_hash_step(seq_hash_step(st, a), b) == seq_hash_step(seq_hash_step(st, b), a),
{
}

/// Law: reordering two neighbouring actions inside one run of waits, or
/// inside one run of non-wait actions, leaves the sequence hash unchanged.
pub proof fn lemma_sequence_hash_swap_within_run(
    prefix: Seq<Action>,
    a: Action,
    b: Action,
    suffix: Seq<Action>,
)
    requires
        is_wait(a) == is_wait(b),
    ensures
        action_sequence_hash(prefix + seq![a, b] + suffix) == action_sequence_hash(
            prefix + seq![b, a] + suffix,
        ),
{
    let st0 = seq_hash_initial();
    lemma_seq_hash_run_concat(st0, prefix + seq![a, b], suffix);
    lemma_seq_hash_run_concat(st0, prefix + seq![b, a], suffix);
    lemma_seq_hash_run_concat(st0, prefix, seq![a, b]);
    lemma_seq_hash_run_concat(st0, prefix, seq![b, a]);
    let st = seq_hash_run(st0, prefix);
    assert(seq_hash_run(st, seq![a, b]) == seq_hash_step(seq_hash_step(st, a), b)) by {
        assert(seq![a, b].drop_first() =~= seq![b]);
        assert(seq![b].drop_first() =~= Seq::<Action>::empty());
        reveal_with_fuel(seq_hash_run, 3);
    }
    assert(seq_hash_run(st, seq![b, a]) == seq_hash_step(seq_hash_step(st, b), a)) by {
        assert(seq![b, a].drop_first() =~= seq![a]);
        assert(seq![a].drop_first() =~= Seq::<Action>::empty());
        reveal_with_fuel(seq_hash_run, 3);
    }
    lemma_seq_hash_step_commutes(st, a, b);
}

/// All actions of `r` are waits, or none is.
pub open spec fn one_kind(r: Seq<Action>) -> bool {
    forall|i: int, j: int| 0 <= i < r.len() && 0 <= j < r.len() ==> is_wait(#[trigger] r[i]) == is_wait(#[trigger] r[j])
}

/// Moving the `i`-th action of a one-kind run to the front of the run leaves
/// the sequence hash unchanged.
proof fn lemma_sequence_hash_move_to_front(p: Seq<Action>, r: Seq<Action>, s: Seq<Action>, i: int)
    requires
        0 <= i < r.len(),
        one_kind(r),
    ensures
        action_sequence_hash(p + r + s) == action_sequence_hash(p + (seq![r[i]] + r.remove(i)) + s),
    decreases i,
{
    if i == 0 {
        assert(seq![r[0]] + r.remove(0) =~= r);
    } else {
        let a = r[i - 1];
        let b = r[i];
        let pre = p + r.subrange(0, i - 1);
        let post = r.subrange(i + 1, r.len() as int) + s;
        let r2 = r.update(i - 1, b).update(i, a);
        assert(p + r + s =~= pre + seq![a, b] + post);
        assert(p + r2 + s =~= pre + seq![b, a] + post);
        lemma_sequence_hash_swap_within_run(pre, a, b, post);
        assert(one_kind(r2)) by {
            assert forall|x: int, y: int| 0 <= x < r2.len() && 0 <= y < r2.len() implies is_wait(
                #[trigger] r2[x],
            ) == is_wait(#[trigger] r2[y]) by {
                assert(is_wait(r2[x]) == is_wait(r[0]));
                assert(is_wait(r2[y]) == is_wait(r[0]));
            }
        }
        lemma_sequence_hash_move_to_front(p, r2, s, i - 1);
        assert(r2[i - 1] == b);
        assert(r2.remove(i - 1) =~= r.remove(i));
    }
}

/// Law: any reordering of the actions inside one run of waits, or inside one
/// run of non-wait actions, leaves the sequence hash unchanged: what is
/// before and after the run stays, and the run keeps the same actions, each
/// as often as before. A reordering of several runs is one such reordering
/// per run.
pub proof fn lemma_sequence_hash_permute_within_run(
    prefix: Seq<Action>,
    r1: Seq<Action>,
    r2: Seq<Action>,
    suffix: Seq<Action>,
)
    requires
        one_kind(r1),
        r1.to_multiset() == r2.to_multiset(),
    ensures
        action_sequence_hash(prefix + r1 + suffix) == action_sequence_hash(prefix + r2 + suffix),
    decreases r1.len(),
{
    broadcast use vstd::seq_lib::group_to_multiset_ensures;

    if r1.len() == 0 {
        assert(r2.len() == r2.to_multiset().len());
        assert(r1 =~= r2);
    } else {
        assert(r1.len() == r1.to_multiset().len());
        assert(r2.len() == r2.to_multiset().len());
        let x = r2[0];
        assert(r2.contains(x));
        assert(r1.to_multiset().count(x) > 0);
        assert(r1.contains(x));
        let i = choose|i: int| 0 <= i < r1.len() && r1[i] == x;
        lemma_sequence_hash_move_to_front(prefix, r1, suffix, i);
        let rest1 = r1.remove(i);
        let rest2 = r2.remove(0);
        assert(rest1.to_multiset() == r1.to_multiset().remove(x));
        assert(rest2.to_multiset() == r2.to_multiset().remove(x));
        assert(one_kind(rest1)) by {
            assert forall|a: int, b: int| 0 <= a < rest1.len() && 0 <= b < rest1.len() implies is_wait(
                #[trigger] rest1[a],
            ) == is_wait(#[trigger] rest1[b]) by {
                let ia = if a < i { a } else { a + 1 };
                let ib = if b < i { b } else { b + 1 };
                assert(rest1[a] == r1[ia]);
                assert(rest1[b] == r1[ib]);
                assert(is_wait(r1[ia]) == is_wait(r1[ib]));
            }
        }
        lemma_sequence_hash_permute_within_run(prefix + seq![x], rest1, rest2, suffix);
        assert(prefix + (seq![x] + rest1) + suffix =~= prefix + seq![x] + rest1 + suffix);
        assert(prefix + r2 + suffix =~= prefix + seq![x] + rest2 + suffix);
    }
}

/// The blocks of actions, one after another.
pub open spec fn concat_blocks(blocks: Seq<Seq<Action>>) -> Seq<Action>
    decreases blocks.len(),
{
    if blocks.len() == 0 {
        Seq::empty()
    } else {
        blocks[0] + concat_blocks(blocks.drop_first())
    }
}

/// `ys` reorders `xs` within blocks: both are cut into the same number of
/// blocks, each block of `xs` is all waits or all non-waits, and the matching
/// block of `ys` holds the same actions, each as often.
pub open spec fn reorders_within_blocks(xs: Seq<Seq<Action>>, ys: Seq<Seq<Action>>) -> bool {
    &&& xs.len() == ys.len()
    &&& forall|i: int| 0 <= i < xs.len() ==> one_kind(#[trigger] xs[i])
    &&& forall|i: int| 0 <= i < xs.len() ==> (#[trigger] xs[i]).to_multiset() == ys[i].to_multiset()
}

proof fn lemma_sequence_hash_permute_blocks_after(p: Seq<Action>, xs: Seq<Seq<Action>>, ys: Seq<Seq<Action>>)
    requires
        reorders_within_blocks(xs, ys),
    ensures
        action_sequence_hash(p + concat_blocks(xs)) == action_sequence_hash(p + concat_blocks(ys)),
    decreases xs.len(),
{
    if xs.len() == 0 {
        assert(concat_blocks(xs) =~= concat_blocks(ys));
    } else {
        let x0 = xs[0];
        let y0 = ys[0];
        let xr = concat_blocks(xs.drop_first());
        let yr = concat_blocks(ys.drop_first());
        assert(one_kind(xs[0]));
        assert(xs[0].to_multiset() == ys[0].to_multiset());
        lemma_sequence_hash_permute_within_run(p, x0, y0, xr);
        assert(p + concat_blocks(xs) =~= p + x0 + xr);
        assert(reorders_within_blocks(xs.drop_first(), ys.drop_first())) by {
            assert forall|i: int| 0 <= i < xs.drop_first().len() implies one_kind(
                #[trigger] xs.drop_first()[i],
            ) by {
                assert(xs.drop_first()[i] == xs[i + 1]);
            }
            assert forall|i: int| 0 <= i < xs.drop_first().len() implies (
            #[trigger] xs.drop_first()[i]).to_multiset() == ys.drop_first()[i].to_multiset() by {
                assert(xs.drop_first()[i] == xs[i + 1]);
                assert(ys.drop_first()[i] == ys[i + 1]);
            }
        }
        lemma_sequence_hash_permute_blocks_after(p + y0, xs.drop_first(), ys.drop_first());
        assert(p + y0 + xr =~= (p + y0) + xr);
        assert(p + concat_blocks(ys) =~= (p + y0) + yr);
    }
}

/// Law: reordering actions within runs, any number of them at once, leaves
/// the sequence hash unchanged: when `xs` and `ys` are cut into matching
/// blocks, each block of `xs` all waits or all non-waits and each block of
/// `ys` holding the same actions as its match, each as often, the two
/// sequences hash alike. (A wait that keeps its place is a block of its own.)
pub proof fn lemma_sequence_hash_permute_within_runs(xs: Seq<Seq<Action>>, ys: Seq<Seq<Action>>)
    requires
        reorders_within_blocks(xs, ys),
    ensures
        action_sequence_hash(concat_blocks(xs)) == action_sequence_hash(concat_blocks(ys)),
{
    let e = Seq::<Action>::empty();
    lemma_sequence_hash_permute_blocks_after(e, xs, ys);
    assert(e + concat_blocks(xs) =~= concat_blocks(xs));
    assert(e + concat_blocks(ys) =~= concat_blocks(ys));
}

/// How urgently the searches try an action: direct income first, disabling
/// bonuses last.
pub open spec fn action_priority(a: Action) -> i32 {
    match a {
        Action::AddFacility(_, f) => if facility_multiplies_income(f) {
            1000
        } else {
            500
        },
        Action::InstallItem(..) => 900,
        Action::Wait(_) => 800,
        Action::UpgradeAdmin(_) => 700,
        Action::AddAlphaCore(..) => 600,
        Action::AddImprovement(..) => 500,
        Action::SetHazardPay(_, b) => if b {
            400
        } else {
            -500i32
        },
        Action::SetFreePort(_, b) => if b {
            300
        } else {
            -1000i32
        },
        Action::BuildMakeshiftCommRelay => 250,
        Action::Colonize(_) => 200,
    }
}

/// Every priority value, highest first.
pub open spec fn priority_levels() -> Seq<i32> {
    seq![1000i32, 900, 800, 700, 600, 500, 400, 300, 250, 200, -500i32, -1000i32]
}

/// The actions of `s` with priority `p`, in the order they have in `s`.
pub open spec fn with_priority(s: Seq<Action>, p: i32) -> Seq<Action>
    decreases s.len(),
{
    if s.len() == 0 {
        Seq::empty()
    } else if action_priority(s.last()) == p {
        with_priority(s.drop_last(), p).push(s.last())
    } else {
        with_priority(s.drop_last(), p)
    }
}

/// The actions grouped by priority, highest first, keeping the input
/// order within a priority (a stable sort by descending priority).
pub open spec fn by_priority_from(s: Seq<Action>, level: int) -> Seq<Action>
    decreases 12 - level,
{
    if level < 0 || level >= 12 {
        Seq::empty()
    } else {
        with_priority(s, priority_levels()[level]) + by_priority_from(s, level + 1)
    }
}

pub open spec fn sorted_by_priority(s: Seq<Action>) -> Seq<Action> {
    by_priority_from(s, 0)
}

/// The index of an action's priority among the levels.
pub open spec fn priority_level(a: Action) -> int {
    let p = action_priority(a);
    if p == 1000 {
        0
    } else if p == 900 {
        1
    } else if p == 800 {
        2
    } else if p == 700 {
        3
    } else if p == 600 {
        4
    } else if p == 500 {
        5
    } else if p == 400 {
        6
    } else if p == 300 {
        7
    } else if p == 250 {
        8
    } else if p == 200 {
        9
    } else if p == -500 {
        10
    } else {
        11
    }
}

proof fn lemma_priority_level(a: Action)
    ensures
        0 <= priority_level(a) < 12,
        priority_levels()[priority_level(a)] == action_priority(a),
        forall|k: int| 0 <= k < 12 && priority_levels()[k] == action_priority(a) ==> k == priority_level(a),
{
}

proof fn lemma_with_priority_count(s: Seq<Action>, p: i32, a: Action)
    ensures
        with_priority(s, p).to_multiset().count(a) == if action_priority(a) == p {
            s.to_multiset().count(a)
        } else {
            0
        },
    decreases s.len(),
{
    broadcast use vstd::seq_lib::group_to_multiset_ensures;
    broadcast use vstd::multiset::group_multiset_axioms;

    if s.len() == 0 {
        assert(with_priority(s, p) =~= Seq::<Action>::empty());
    } else {
        let pre = s.drop_last();
        lemma_with_priority_count(pre, p, a);
        assert(s =~= pre.push(s.last()));
    }
}

proof fn lemma_by_priority_count(s: Seq<Action>, level: int, a: Action)
    requires
        0 <= level <= 12,
    ensures
        by_priority_from(s, level).to_multiset().count(a) == if level <= priority_level(a) {
            s.to_multiset().count(a)
        } else {
            0
        },
    decreases 12 - level,
{
    broadcast use vstd::multiset::group_multiset_axioms;
    broadcast use vstd::seq_lib::group_to_multiset_ensures;

    lemma_priority_level(a);
    if level == 12 {
        assert(by_priority_from(s, level) =~= Seq::<Action>::empty());
    } else {
        lemma_by_priority_count(s, level + 1, a);
        lemma_with_priority_count(s, priority_levels()[level], a);
        let w = with_priority(s, priority_levels()[level]);
        let rest = by_priority_from(s, level + 1);
        vstd::seq_lib::lemma_multiset_commutative(w, rest);
        assert(by_priority_from(s, level) == w + rest);
        assert((w + rest).to_multiset().count(a) == w.to_multiset().count(a) + rest.to_multiset().count(a));
        assert((priority_levels()[level] == action_priority(a)) == (level == priority_level(a)));
    }
}

/// Law: ordering by priority neither drops nor duplicates an action; the
/// result holds exactly the given actions.
pub proof fn lemma_sorted_by_priority_permutes(s: Seq<Action>)
    ensures
        sorted_by_priority(s).to_multiset() =~= s.to_multiset(),
{
    assert forall|a: Action| #[trigger] sorted_by_priority(s).to_multiset().count(a)
        == s.to_multiset().count(a) by {
        lemma_by_priority_count(s, 0, a);
        lemma_priority_level(a);
    }
}

/// How a plan names a planet: its entry in `names`, or else its hash in
/// decimal.
pub open spec fn planet_text(hash: u64, names: Map<u64, String>) -> Seq<char> {
    if names.contains_key(hash) {
        names[hash]@
    } else {
        decimal(hash as nat)
    }
}

/// The human-readable line for one action.
pub open spec fn action_text(a: Action, names: Map<u64, String>) -> Seq<char> {
    match a {
        Action::AddFacility(p, f) => "Build "@ + title_text(facility_name(f)) + " on "@
            + planet_text(p, names),
        Action::AddImprovement(p, f) => "Improve "@ + title_text(facility_name(f)) + " on "@
            + planet_text(p, names),
        Action::AddAlphaCore(p, f) => "Install alpha core in "@ + title_text(facility_name(f))
            + " on "@ + planet_text(p, names),
        Action::InstallItem(p, f, i) => "Install "@ + title_text(item_name(i)) + " in "@
            + title_text(facility_name(f)) + " on "@ + planet_text(p, names),
        Action::SetFreePort(p, b) => (if b {
            "Enable"@
        } else {
            "Disable"@
        }) + " free port on "@ + planet_text(p, names),
        Action::SetHazardPay(p, b) => (if b {
            "Enable"@
        } else {
            "Disable"@
        }) + " hazard pay on "@ + planet_text(p, names),
        Action::UpgradeAdmin(p) => "Install alpha-core administrator on "@ + planet_text(p, names),
        Action::BuildMakeshiftCommRelay => "Build makeshift comm relay"@,
        Action::Colonize(p) => "Colonize "@ + planet_text(p, names),
        Action::Wait(m) => "Wait "@ + decimal(m as nat) + (if m == 1 {
            " month"@
        } else {
            " months"@
        }),
    }
}

/// The name of a planet: its entry in `planet_names`, or its hash.
fn planet_name(planet_hash: u64, planet_names: &HashMap<u64, String>) -> (s: String)
    ensures
        s@ == planet_text(planet_hash, planet_names@),
{
    broadcast use vstd::std_specs::hash::group_hash_axioms;

    match planet_names.get(&planet_hash) {
        Some(name) => name.clone(),
        None => u64_to_string(planet_hash),
    }
}

/// The human-readable line for one action, naming planets through
/// `planet_names`.
pub fn format_action(action: &Action, planet_names: &HashMap<u64, String>) -> (s: String)
    ensures
        s@ == action_text(*action, planet_names@),
{
    let mut out = String::new();
    match action {
        Action::AddFacility(p, f) => {
            out.append("Build ");
            out.append(title_case(f.as_str()).as_str());
            out.append(" on ");
            out.append(planet_name(*p, planet_names).as_str());
        },
        Action::AddImprovement(p, f) => {
            out.append("Improve ");
            out.append(title_case(f.as_str()).as_str());
            out.append(" on ");
            out.append(planet_name(*p, planet_names).as_str());
        },
        Action::AddAlphaCore(p, f) => {
            out.append("Install alpha core in ");
            out.append(title_case(f.as_str()).as_str());
            out.append(" on ");
            out.append(planet_name(*p, planet_names).as_str());
        },
        Action::InstallItem(p, f, i) => {
            out.append("Install ");
            out.append(title_case(i.name()).as_str());
            out.append(" in ");
            out.append(title_case(f.as_str()).as_str());
            out.append(" on ");
            out.append(planet_name(*p, planet_names).as_str());
        },
        Action::SetFreePort(p, b) => {
            out.append(if *b { "Enable" } else { "Disable" });
            out.append(" free port on ");
            out.append(planet_name(*p, planet_names).as_str());
        },
        Action::SetHazardPay(p, b) => {
            out.append(if *b { "Enable" } else { "Disable" });
            out.append(" hazard pay on ");
            out.append(planet_name(*p, planet_names).as_str());
        },
        Action::UpgradeAdmin(p) => {
            out.append("Install alpha-core administrator on ");
            out.append(planet_name(*p, planet_names).as_str());
        },
        Action::BuildMakeshiftCommRelay => {
            out.append("Build makeshift comm relay");
        },
        Action::Colonize(p) => {
            out.append("Colonize ");
            out.append(planet_name(*p, planet_names).as_str());
        },
        Action::Wait(m) => {
            out.append("Wait ");
            push_decimal(&mut out, *m as u64);
            out.append(if *m == 1 { " month" } else { " months" });
        },
    }
    proof {
        assert(out@ =~= action_text(*action, planet_names@));
    }
    out
}

/// Order actions the way the searches try them: by descending priority,
/// keeping the given order among actions of equal priority.
pub fn sort_by_priority(actions: &mut Vec<Action>)
    ensures
        final(actions)@ == sorted_by_priority(old(actions)@),
{
    let levels: [i32; 12] = [1000, 900, 800, 700, 600, 500, 400, 300, 250, 200, -500, -1000];
    let ghost orig = actions@;
    let mut result: Vec<Action> = Vec::new();
    let mut level: usize = 12;
    proof {
        assert(levels@ =~= priority_levels());
    }
    while level > 0
        invariant
            0 <= level <= 12,
            levels@ == priority_levels(),
            orig == actions@,
            result@ == by_priority_from(orig, level as int),
        decreases level,
    {
        level = level - 1;
        let p = levels[level];
        let mut bucket: Vec<Action> = Vec::new();
        let mut i: usize = 0;
        proof {
            assert(orig.take(0) =~= Seq::<Action>::empty());
        }
        while i < actions.len()
            invariant
                0 <= i <= actions@.len(),
                orig == actions@,
                bucket@ == with_priority(orig.take(i as int), p),
            decreases actions@.len() - i,
        {
            proof {
                assert(orig.take(i + 1).drop_last() =~= orig.take(i as int));
                assert(orig.take(i + 1).last() == orig[i as int]);
            }
            if actions[i].priority() == p {
                bucket.push(actions[i]);
            }
            i = i + 1;
        }
        proof {
            assert(orig.take(i as int) =~= orig);
        }
        bucket.append(&mut result);
        result = bucket;
    }
    *actions = result;
}

fn mix64(x: u64) -> (r: u64)
    ensures
        r == spec_mix64(x),
{
    reveal(spec_mix64);
    let x1 = (x ^ (x >> 30)).wrapping_mul(0xbf58476d1ce4e5b9);
    let x2 = (x1 ^ (x1 >> 27)).wrapping_mul(0x94d049bb133111eb);
    x2 ^ (x2 >> 31)
}

impl Action {
    fn priority(&self) -> (p: i32)
        ensures
            p == action_priority(*self),
    {
        match self {
            Action::AddFacility(_, f) => {
                if f.multiplies_income() {
                    1000
                } else {
                    500
                }
            },
            Action::InstallItem(_, _, _) => 900,
            Action::Wait(_) => 800,
            Action::UpgradeAdmin(_) => 700,
            Action::AddAlphaCore(_, _) => 600,
            Action::AddImprovement(_, _) => 500,
            Action::SetHazardPay(_, true) => 400,
            Action::SetFreePort(_, true) => 300,
            Action::BuildMakeshiftCommRelay => 250,
            Action::Colonize(_) => 200,
            Action::SetHazardPay(_, false) => -500,
            Action::SetFreePort(_, false) => -1000,
        }
    }

    /// A fast 64-bit hash of the action.
    pub fn get_hash(&self) -> (h: u64)
        ensures
            h == action_hash(*self),
    {
        reveal(action_hash);
        let disc_val: u64 = match self {
            Action::AddFacility(..) => 1,
            Action::AddImprovement(..) => 2,
            Action::AddAlphaCore(..) => 3,
            Action::InstallItem(..) => 4,
            Action::SetFreePort(..) => 5,
            Action::SetHazardPay(..) => 6,
            Action::UpgradeAdmin(..) => 7,
            Action::BuildMakeshiftCommRelay => 8,
            Action::Colonize(..) => 9,
            Action::Wait(..) => 10,
        };
        let hash: u64 = match self {
            Action::AddFacility(p, f) => p.wrapping_mul(HASH_PRIME3) ^ (f.code() << 8),
            Action::AddImprovement(p, f) => p.wrapping_mul(HASH_PRIME3) ^ (f.code() << 8),
            Action::AddAlphaCore(p, f) => p.wrapping_mul(HASH_PRIME3) ^ (f.code() << 8),
            Action::InstallItem(p, f, i) => p.wrapping_mul(HASH_PRIME3) ^ (f.code() << 8) ^ (
            i.code() << 16),
            Action::SetFreePort(p, b) => p.wrapping_mul(HASH_PRIME3) ^ ((if *b {
                1u64
            } else {
                0u64
            }) << 8),
            Action::SetHazardPay(p, b) => p.wrapping_mul(HASH_PRIME3) ^ ((if *b {
                1u64
            } else {
                0u64
            }) << 8),
            Action::UpgradeAdmin(p) => p.wrapping_mul(HASH_PRIME3),
            Action::BuildMakeshiftCommRelay => HASH_PRIME3,
            Action::Colonize(p) => p.wrapping_mul(HASH_PRIME3),
            Action::Wait(m) => (*m as u64).wrapping_mul(HASH_PRIME3),
        };
        let combined = hash ^ disc_val.wrapping_mul(HASH_PRIME2);
        combined.wrapping_mul(HASH_PRIME1) ^ (combined >> 33).wrapping_add(HASH_PRIME2)
    }
}

/// Hash of an action sequence, used to deduplicate search nodes. It tells
/// apart sequences that differ in where waits fall, and gives the same value
/// to sequences that only reorder actions inside one run of waits or inside
/// one run of non-wait actions.
pub fn get_action_sequence_hash(actions: &[Action]) -> (h: u64)
    ensures
        h == action_sequence_hash(actions@),
{
    let mut seq_hash: u64 = SEQ_OFFSET;
    let mut seg_hash: u64 = 0;
    let mut in_wait = false;
    let mut started = false;
    let mut i: usize = 0;
    proof {
        assert(actions@.skip(0) =~= actions@);
    }
    while i < actions.len()
        invariant
            0 <= i <= actions@.len(),
            seq_hash_run(seq_hash_initial(), actions@) == seq_hash_run(
                SeqHashState { seq_hash, seg_hash, in_wait, started },
                actions@.skip(i as int),
            ),
        decreases actions@.len() - i,
    {
        let action = &actions[i];
        let is_w = match action {
            Action::Wait(_) => true,
            _ => false,
        };
        proof {
            assert(actions@.skip(i as int).drop_first() =~= actions@.skip(i + 1));
        }
        if started && is_w != in_wait {
            seq_hash = (seq_hash ^ mix64(seg_hash)).wrapping_mul(SEQ_PRIME);
            seg_hash = 0;
        }
        in_wait = is_w;
        started = true;
        seg_hash = seg_hash.wrapping_add(mix64(action.get_hash()));
        i = i + 1;
    }
    proof {
        assert(actions@.skip(i as int).len() == 0);
    }
    if started {
        seq_hash = (seq_hash ^ mix64(seg_hash)).wrapping_mul(SEQ_PRIME);
    }
    seq_hash
}

} // verus!
