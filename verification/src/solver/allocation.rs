use vstd::prelude::*;

verus! {

/// One grant the income-allocation greedy can give a planet: a chunk of alpha
/// cores, a chunk of story points, or one colony item (by its index among
/// the held item types).
#[derive(Clone, Copy, Debug, PartialEq, Eq, Structural)]
pub enum AllocUnit {
    Core(u32),
    Sp(u32),
    Item(usize),
}

/// Cores and story points are handed out 4 at a time while the pool is deep
/// (16 or more), then 2 (4 or more), then 1.
pub open spec fn spec_chunk_for(rem: u32) -> u32 {
    if rem >= 16 {
        4
    } else if rem >= 4 {
        2
    } else {
        1
    }
}

pub fn chunk_for(rem: u32) -> (c: u32)
    ensures
        c == spec_chunk_for(rem),
{
    if rem >= 16 {
        4
    } else if rem >= 4 {
        2
    } else {
        1
    }
}

/// What is still to be handed out: alpha cores, story points, and a count per
/// colony item type.
pub struct AllocPool {
    pub cores: u32,
    pub sps: u32,
    pub items: Vec<u32>,
}

/// What one planet has been granted so far.
pub struct PlanetGrant {
    pub cores: u32,
    pub sps: u32,
    pub items: Vec<u32>,
}

/// The item grants on offer among the first `n` item types: one per type
/// that still has items left, in type order.
pub open spec fn item_units(items: Seq<u32>, n: int) -> Seq<AllocUnit>
    decreases n,
{
    if n <= 0 {
        Seq::empty()
    } else if items[n - 1] > 0 {
        item_units(items, n - 1).push(AllocUnit::Item((n - 1) as usize))
    } else {
        item_units(items, n - 1)
    }
}

/// The grants on offer to a planet: a core chunk while cores are left, a
/// story-point chunk while story points are left, then one item of each type
/// still held.
pub open spec fn offered_units(cores: u32, sps: u32, items: Seq<u32>) -> Seq<AllocUnit> {
    let c = if cores > 0 {
        seq![AllocUnit::Core(spec_chunk_for(cores))]
    } else {
        Seq::empty()
    };
    let s = if sps > 0 {
        seq![AllocUnit::Sp(spec_chunk_for(sps))]
    } else {
        Seq::empty()
    };
    c + s + item_units(items, items.len() as int)
}

/// The grants on offer to each planet for the pool as it stands.
pub fn candidate_units(pool: &AllocPool) -> (units: Vec<AllocUnit>)
    ensures
        units@ == offered_units(pool.cores, pool.sps, pool.items@),
{
    let mut units: Vec<AllocUnit> = Vec::new();
    if pool.cores > 0 {
        units.push(AllocUnit::Core(chunk_for(pool.cores)));
    }
    if pool.sps > 0 {
        units.push(AllocUnit::Sp(chunk_for(pool.sps)));
    }
    let ghost head = units@;
    let mut j: usize = 0;
    while j < pool.items.len()
        invariant
            j <= pool.items@.len(),
            units@ == head + item_units(pool.items@, j as int),
        decreases pool.items@.len() - j,
    {
        if pool.items[j] > 0 {
            units.push(AllocUnit::Item(j));
        }
        j = j + 1;
    }
    proof {
        assert(head == (if pool.cores > 0 {
            seq![AllocUnit::Core(spec_chunk_for(pool.cores))]
        } else {
            Seq::empty()
        }) + (if pool.sps > 0 {
            seq![AllocUnit::Sp(spec_chunk_for(pool.sps))]
        } else {
            Seq::empty()
        }));
    }
    units
}

/// The pool can give `unit`.
pub open spec fn unit_fits(cores: u32, sps: u32, items: Seq<u32>, unit: AllocUnit) -> bool {
    match unit {
        AllocUnit::Core(chunk) => cores >= chunk,
        AllocUnit::Sp(chunk) => sps >= chunk,
        AllocUnit::Item(j) => items[j as int] > 0,
    }
}

/// Give `unit` to a planet when the pool still holds it (returning whether it
/// did): what leaves the pool is what the planet gains, so pool and grant
/// together hold exactly what they held before.
pub fn grant_unit(pool: &mut AllocPool, grant: &mut PlanetGrant, unit: AllocUnit) -> (ok: bool)
    requires
        old(grant).items@.len() == old(pool).items@.len(),
        unit matches AllocUnit::Item(j) ==> j < old(pool).items@.len(),
        old(grant).cores + old(pool).cores <= u32::MAX,
        old(grant).sps + old(pool).sps <= u32::MAX,
        forall|k: int|
            0 <= k < old(pool).items@.len() ==> old(grant).items@[k] + old(pool).items@[k] <= u32::MAX,
    ensures
        ok == unit_fits(old(pool).cores, old(pool).sps, old(pool).items@, unit),
        final(grant).items@.len() == final(pool).items@.len() == old(pool).items@.len(),
        final(grant).cores + final(pool).cores == old(grant).cores + old(pool).cores,
        final(grant).sps + final(pool).sps == old(grant).sps + old(pool).sps,
        forall|k: int|
            0 <= k < old(pool).items@.len() ==> final(grant).items@[k] + final(pool).items@[k]
                == old(grant).items@[k] + old(pool).items@[k],
        !ok ==> final(pool).cores == old(pool).cores && final(pool).sps == old(pool).sps
            && final(pool).items@ == old(pool).items@ && final(grant).cores == old(grant).cores
            && final(grant).sps == old(grant).sps && final(grant).items@ == old(grant).items@,
        ok ==> match unit {
            AllocUnit::Core(chunk) => final(grant).cores == old(grant).cores + chunk
                && final(grant).sps == old(grant).sps && final(grant).items@ == old(grant).items@
                && final(pool).sps == old(pool).sps && final(pool).items@ == old(pool).items@,
            AllocUnit::Sp(chunk) => final(grant).sps == old(grant).sps + chunk
                && final(grant).cores == old(grant).cores && final(grant).items@ == old(grant).items@
                && final(pool).cores == old(pool).cores && final(pool).items@ == old(pool).items@,
            AllocUnit::Item(j) => final(grant).items@ == old(grant).items@.update(
                j as int,
                (old(grant).items@[j as int] + 1) as u32,
            ) && final(pool).items@ == old(pool).items@.update(
                j as int,
                (old(pool).items@[j as int] - 1) as u32,
            ) && final(grant).cores == old(grant).cores && final(grant).sps == old(grant).sps
                && final(pool).cores == old(pool).cores && final(pool).sps == old(pool).sps,
        },
{
    match unit {
        AllocUnit::Core(chunk) => {
            if pool.cores < chunk {
                return false;
            }
            grant.cores = grant.cores + chunk;
            pool.cores = pool.cores - chunk;
        },
        AllocUnit::Sp(chunk) => {
            if pool.sps < chunk {
                return false;
            }
            grant.sps = grant.sps + chunk;
            pool.sps = pool.sps - chunk;
        },
        AllocUnit::Item(j) => {
            if pool.items[j] == 0 {
                return false;
            }
            let g = grant.items[j];
            let p = pool.items[j];
            grant.items.set(j, g + 1);
            pool.items.set(j, p - 1);
        },
    }
    true
}

} // verus!
