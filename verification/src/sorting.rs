use vstd::prelude::*;
use vstd::relations::{sorted_by, total_ordering};

use crate::constants::{facility_code, FacilityType};

verus! {

/// The usual order on hashes.
pub open spec fn hash_leq() -> spec_fn(u64, u64) -> bool {
    |a: u64, b: u64| a <= b
}

/// The elements of a finite set of hashes in increasing order.
pub open spec fn sorted_hashes(s: Set<u64>) -> Seq<u64> {
    s.to_sorted_seq(hash_leq())
}

/// Listing a finite set names each element once.
pub proof fn lemma_to_seq_no_duplicates<A>(s: Set<A>)
    requires
        s.finite(),
    ensures
        s.to_seq().no_duplicates(),
        s.to_seq().to_set() == s,
    decreases s.len(),
{
    s.lemma_to_seq_to_set_id();
    if s.len() > 0 {
        let x = s.choose();
        let rest = s.remove(x);
        lemma_to_seq_no_duplicates(rest);
        assert(rest.to_seq().to_set() == rest);
        let t = s.to_seq();
        assert(t == Seq::<A>::empty().push(x) + rest.to_seq());
        assert forall|i: int, j: int| 0 <= i < t.len() && 0 <= j < t.len() && i != j implies t[i]
            != t[j] by {
            if i == 0 && j > 0 {
                assert(rest.to_seq().contains(t[j]));
            } else if j == 0 && i > 0 {
                assert(rest.to_seq().contains(t[i]));
            } else if i > 0 && j > 0 {
                assert(t[i] == rest.to_seq()[i - 1]);
                assert(t[j] == rest.to_seq()[j - 1]);
            }
        }
    }
}

/// Two duplicate-free sequences with the same elements hold each element
/// equally often.
pub proof fn lemma_same_set_same_multiset<A>(x: Seq<A>, y: Seq<A>)
    requires
        x.no_duplicates(),
        y.no_duplicates(),
        x.to_set() == y.to_set(),
    ensures
        x.to_multiset() == y.to_multiset(),
{
    broadcast use vstd::seq_lib::group_to_multiset_ensures;
    broadcast use vstd::multiset::group_multiset_axioms;

    x.lemma_multiset_has_no_duplicates();
    y.lemma_multiset_has_no_duplicates();
    assert forall|a: A| #[trigger] x.to_multiset().count(a) == y.to_multiset().count(a) by {
        if x.contains(a) {
            assert(x.to_set().contains(a));
            assert(y.contains(a));
        } else {
            assert(!y.to_set().contains(a));
            assert(!y.contains(a));
        }
    }
    assert(x.to_multiset() =~= y.to_multiset());
}

/// The sorted listing of a finite set, for a total order, is sorted,
/// duplicate-free and holds exactly the set; and it is the only such
/// sequence.
pub proof fn lemma_sorted_set<A>(s: Set<A>, leq: spec_fn(A, A) -> bool, other: Seq<A>)
    requires
        s.finite(),
        total_ordering(leq),
    ensures
        sorted_by(s.to_sorted_seq(leq), leq),
        s.to_sorted_seq(leq).no_duplicates(),
        s.to_sorted_seq(leq).to_set() == s,
        s.to_sorted_seq(leq).len() == s.len(),
        sorted_by(other, leq) && other.no_duplicates() && other.to_set() == s ==> other
            == s.to_sorted_seq(leq),
{
    broadcast use vstd::seq_lib::group_to_multiset_ensures;

    lemma_to_seq_no_duplicates(s);
    let t = s.to_seq();
    t.lemma_sort_by_ensures(leq);
    let st = s.to_sorted_seq(leq);
    assert(st.to_multiset() == t.to_multiset());
    assert forall|a: A| st.contains(a) <==> t.contains(a) by {
        assert(st.to_multiset().contains(a) == st.contains(a));
        assert(t.to_multiset().contains(a) == t.contains(a));
    }
    assert(st.to_set() =~= s) by {
        assert forall|a: A| st.to_set().contains(a) <==> s.contains(a) by {
            assert(t.to_set().contains(a) == t.contains(a));
        }
    }
    t.lemma_multiset_has_no_duplicates();
    st.lemma_multiset_has_no_duplicates_conv();
    st.unique_seq_to_set();
    if sorted_by(other, leq) && other.no_duplicates() && other.to_set() == s {
        lemma_same_set_same_multiset(other, st);
        vstd::seq_lib::lemma_sorted_unique(other, st, leq);
    }
}

/// The sorted listing of a finite set of hashes; see `lemma_sorted_set`.
pub proof fn lemma_sorted_hashes(s: Set<u64>, other: Seq<u64>)
    requires
        s.finite(),
    ensures
        sorted_by(sorted_hashes(s), hash_leq()),
        sorted_hashes(s).no_duplicates(),
        sorted_hashes(s).to_set() == s,
        sorted_hashes(s).len() == s.len(),
        sorted_by(other, hash_leq()) && other.no_duplicates() && other.to_set() == s ==> other
            == sorted_hashes(s),
{
    lemma_sorted_set(s, hash_leq(), other);
}

/// Keeping some elements of a duplicate-free sequence leaves it
/// duplicate-free.
pub proof fn lemma_filter_no_duplicates<A>(s: Seq<A>, pred: spec_fn(A) -> bool)
    requires
        s.no_duplicates(),
    ensures
        s.filter(pred).no_duplicates(),
    decreases s.len(),
{
    if s.len() > 0 {
        let pre = s.drop_last();
        assert(s =~= pre.push(s.last()));
        lemma_filter_no_duplicates(pre, pred);
        pre.lemma_filter_push(s.last(), pred);
        if pred(s.last()) {
            if pre.filter(pred).contains(s.last()) {
                pre.lemma_filter_contains_rev(pred, s.last());
                let i = choose|i: int| 0 <= i < pre.len() && pre[i] == s.last();
                assert(s[i] == s[s.len() - 1]);
            }
        }
    }
}

/// Reordering a duplicate-free sequence keeps it duplicate-free and keeps
/// its elements.
pub proof fn lemma_permutation_keeps_set<A>(x: Seq<A>, y: Seq<A>)
    requires
        x.to_multiset() == y.to_multiset(),
        x.no_duplicates(),
    ensures
        y.no_duplicates(),
        y.to_set() == x.to_set(),
{
    broadcast use vstd::seq_lib::group_to_multiset_ensures;
    broadcast use vstd::multiset::group_multiset_axioms;

    x.lemma_multiset_has_no_duplicates();
    y.lemma_multiset_has_no_duplicates_conv();
    assert forall|a: A| y.to_set().contains(a) <==> x.to_set().contains(a) by {
        assert(y.to_multiset().contains(a) == y.contains(a));
        assert(x.to_multiset().contains(a) == x.contains(a));
    }
    assert(y.to_set() =~= x.to_set());
}

/// Sort hashes into increasing order.
pub fn sort_hashes(v: Vec<u64>) -> (r: Vec<u64>)
    ensures
        sorted_by(r@, hash_leq()),
        r@.to_multiset() == v@.to_multiset(),
{
    broadcast use vstd::seq_lib::group_to_multiset_ensures;

    let mut r: Vec<u64> = Vec::new();
    let mut i: usize = 0;
    proof {
        assert(v@.take(0) =~= Seq::<u64>::empty());
    }
    while i < v.len()
        invariant
            0 <= i <= v@.len(),
            sorted_by(r@, hash_leq()),
            r@.to_multiset() == v@.take(i as int).to_multiset(),
        decreases v@.len() - i,
    {
        let x = v[i];
        let mut pos: usize = 0;
        while pos < r.len() && r[pos] <= x
            invariant
                0 <= pos <= r@.len(),
                forall|k: int| 0 <= k < pos ==> r@[k] <= x,
            decreases r@.len() - pos,
        {
            pos = pos + 1;
        }
        let ghost old_r = r@;
        r.insert(pos, x);
        proof {
            assert(r@ == old_r.insert(pos as int, x));
            vstd::seq_lib::to_multiset_insert(old_r, pos as int, x);
            assert(v@.take(i + 1) =~= v@.take(i as int).push(x));
            vstd::seq_lib::to_multiset_build(v@.take(i as int), x);
            assert(r@.to_multiset() == v@.take(i + 1).to_multiset());
            assert forall|a: int, b: int| 0 <= a < b < r@.len() implies #[trigger] (hash_leq())(
                r@[a],
                r@[b],
            ) by {
                assert((hash_leq())(old_r[0], old_r[0]) || true);
                if b < pos {
                    assert((hash_leq())(old_r[a], old_r[b]));
                } else if b == pos {
                    assert(r@[a] == old_r[a]);
                } else if a < pos {
                    assert(r@[b] == old_r[b - 1]);
                    assert(pos < old_r.len());
                    assert(!(old_r[pos as int] <= x));
                    assert((hash_leq())(old_r[pos as int], old_r[b - 1]) || pos == b - 1);
                } else if a == pos {
                    assert(r@[b] == old_r[b - 1]);
                    assert(!(old_r[pos as int] <= x));
                    assert((hash_leq())(old_r[pos as int], old_r[b - 1]) || pos == b - 1);
                } else {
                    assert((hash_leq())(old_r[a - 1], old_r[b - 1]));
                }
            }
        }
        i = i + 1;
    }
    proof {
        assert(v@.take(i as int) =~= v@);
    }
    r
}

/// Facilities in declaration order.
pub open spec fn facility_leq() -> spec_fn(FacilityType, FacilityType) -> bool {
    |a: FacilityType, b: FacilityType| facility_code(a) <= facility_code(b)
}

/// The distinct facilities of a set in declaration order.
pub open spec fn sorted_facilities(s: Set<FacilityType>) -> Seq<FacilityType> {
    s.to_sorted_seq(facility_leq())
}

pub proof fn lemma_facility_leq_total()
    ensures
        total_ordering(facility_leq()),
{
    assert forall|a: FacilityType, b: FacilityType|
        #[trigger] (facility_leq())(a, b) && #[trigger] (facility_leq())(b, a) implies a == b by {
        assert(facility_code(a) == facility_code(b));
    }
}

/// The distinct facilities of `v` in declaration order.
pub fn sort_facilities(v: &Vec<FacilityType>) -> (r: Vec<FacilityType>)
    ensures
        r@ == sorted_facilities(v@.to_set()),
{
    let mut r: Vec<FacilityType> = Vec::new();
    let mut i: usize = 0;
    proof {
        assert(v@.take(0).to_set() =~= Set::<FacilityType>::empty());
        assert(r@.to_set() =~= Set::<FacilityType>::empty());
    }
    while i < v.len()
        invariant
            0 <= i <= v@.len(),
            sorted_by(r@, facility_leq()),
            r@.no_duplicates(),
            r@.to_set() == v@.take(i as int).to_set(),
        decreases v@.len() - i,
    {
        let x = v[i];
        let cx = x.code();
        let mut pos: usize = 0;
        while pos < r.len() && r[pos].code() < cx
            invariant
                0 <= pos <= r@.len(),
                forall|k: int| 0 <= k < pos ==> facility_code(r@[k]) < cx,
            decreases r@.len() - pos,
        {
            pos = pos + 1;
        }
        let ghost old_r = r@;
        proof {
            assert(v@.take(i + 1) =~= v@.take(i as int).push(x));
            v@.take(i as int).lemma_push_to_set_commute(x);
            assert(v@.take(i + 1).to_set() =~= v@.take(i as int).to_set().insert(x));
        }
        if pos < r.len() && r[pos].code() == cx {
            proof {
                lemma_facility_leq_total();
                assert((facility_leq())(r@[pos as int], x) && (facility_leq())(x, r@[pos as int]));
                assert(r@[pos as int] == x);
                assert(r@.to_set().contains(x));
                assert(r@.to_set().insert(x) =~= r@.to_set());
            }
        } else {
            r.insert(pos, x);
            proof {
                assert(r@ == old_r.insert(pos as int, x));
                assert(r@.to_set() =~= old_r.to_set().insert(x)) by {
                    assert forall|a: FacilityType| r@.to_set().contains(a) <==> old_r.to_set().insert(
                        x,
                    ).contains(a) by {
                        if r@.contains(a) {
                            let k = choose|k: int| 0 <= k < r@.len() && r@[k] == a;
                            if k < pos {
                                assert(old_r[k] == a);
                            } else if k > pos {
                                assert(old_r[k - 1] == a);
                            }
                        }
                        if old_r.contains(a) {
                            let k = choose|k: int| 0 <= k < old_r.len() && old_r[k] == a;
                            if k < pos {
                                assert(r@[k] == a);
                            } else {
                                assert(r@[k + 1] == a);
                            }
                        }
                        if a == x {
                            assert(r@[pos as int] == x);
                        }
                    }
                }
                assert forall|a: int, b: int| 0 <= a < b < r@.len() implies #[trigger] (
                facility_leq())(r@[a], r@[b]) by {
                    if b < pos {
                        assert((facility_leq())(old_r[a], old_r[b]));
                    } else if b == pos {
                        assert(r@[a] == old_r[a]);
                    } else if a < pos {
                        assert(r@[b] == old_r[b - 1]);
                        assert(facility_code(old_r[pos as int]) >= cx);
                        assert((facility_leq())(old_r[pos as int], old_r[b - 1]) || pos == b - 1);
                    } else if a == pos {
                        assert(r@[b] == old_r[b - 1]);
                        assert(facility_code(old_r[pos as int]) >= cx);
                        assert((facility_leq())(old_r[pos as int], old_r[b - 1]) || pos == b - 1);
                    } else {
                        assert((facility_leq())(old_r[a - 1], old_r[b - 1]));
                    }
                }
                assert forall|a: int, b: int| 0 <= a < r@.len() && 0 <= b < r@.len() && a != b implies r@[a]
                    != r@[b] by {
                    if pos < old_r.len() {
                        assert(facility_code(old_r[pos as int]) != cx);
                    }
                    if a != pos && b != pos {
                        let oa = if a < pos { a } else { a - 1 };
                        let ob = if b < pos { b } else { b - 1 };
                        assert(r@[a] == old_r[oa]);
                        assert(r@[b] == old_r[ob]);
                    } else if a == pos {
                        let ob = if b < pos { b } else { b - 1 };
                        assert(r@[b] == old_r[ob]);
                        if ob < pos {
                            assert(facility_code(old_r[ob]) < cx);
                        } else {
                            assert((facility_leq())(old_r[pos as int], old_r[ob]) || ob == pos);
                        }
                    } else {
                        let oa = if a < pos { a } else { a - 1 };
                        assert(r@[a] == old_r[oa]);
                        if oa < pos {
                            assert(facility_code(old_r[oa]) < cx);
                        } else {
                            assert((facility_leq())(old_r[pos as int], old_r[oa]) || oa == pos);
                        }
                    }
                }
            }
        }
        i = i + 1;
    }
    proof {
        assert(v@.take(i as int) =~= v@);
        lemma_facility_leq_total();
        lemma_sorted_set(v@.to_set(), facility_leq(), r@);
    }
    r
}

} // verus!
