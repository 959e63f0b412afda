//! Per-database slots: a fixed number of pre-built values, and a map from
//! database identifier to slot, filled the first time each database is seen.
use crate::types::SyncMut;
use vstd::prelude::*;

verus! {

/// Most slots that a table can have: the capacity of the heapless map from
/// database to slot. The map's type fixes it, since what the map holds is
/// named for one map type; tables serve a handful of databases.
pub const MAX_DATABASES: usize = 64;

/// heapless's fixed-capacity hash map, held opaque: what it holds is named
/// by `slot_map` below.
#[verifier::external_type_specification]
#[verifier::external_body]
#[verifier::reject_recursive_types(K)]
#[verifier::reject_recursive_types(V)]
#[verifier::reject_recursive_types(S)]
pub struct ExIndexMap<K, V, S, const N: usize>(heapless::IndexMap<K, V, S, N>);

/// hash32's hasher builder, which the slot map's type names.
#[verifier::external_type_specification]
#[verifier::external_body]
#[verifier::reject_recursive_types(H)]
pub struct ExBuildHasherDefault<H>(hash32::BuildHasherDefault<H>);

/// hash32's FNV hasher, which the slot map's type names.
#[verifier::external_type_specification]
#[verifier::external_body]
pub struct ExFnvHasher(hash32::FnvHasher);

/// The slot map's type: database identifier to slot index.
pub type SlotMap = heapless::FnvIndexMap<u32, usize, 64>;

/// The pairs that a slot map holds.
pub uninterp spec fn slot_map(m: SlotMap) -> Map<u32, usize>;

/// Relies on heapless's `IndexMap::new`: the map starts empty.
#[verifier::external_body]
fn slot_map_new() -> (r: SlotMap)
    ensures
        slot_map(r).len() == 0,
        slot_map(r).dom().finite(),
{
    heapless::FnvIndexMap::new()
}

/// Relies on heapless's `IndexMap::get`: the value stored under `db`, if any.
#[verifier::external_body]
fn slot_map_get(m: &SlotMap, db: u32) -> (r: Option<usize>)
    ensures
        r == (if slot_map(*m).contains_key(db) {
            Some(slot_map(*m)[db])
        } else {
            None::<usize>
        }),
{
    m.get(&db).copied()
}

/// Relies on heapless's `IndexMap::insert`: a key that is not present goes
/// in where fewer than the capacity's 64 entries are held.
#[verifier::external_body]
fn slot_map_insert(m: &mut SlotMap, db: u32, slot: usize)
    requires
        !slot_map(*old(m)).contains_key(db),
        slot_map(*old(m)).len() < 64,
        slot_map(*old(m)).dom().finite(),
    ensures
        slot_map(*final(m)) == slot_map(*old(m)).insert(db, slot),
{
    let _ = m.insert(db, slot);
}

/// The slot that database `db` uses, given the map and the number of slots
/// claimed so far: its own where it has one, else the next free one.
pub open spec fn slot_for(assigned: Map<u32, usize>, claimed: nat, db: u32) -> nat {
    if assigned.contains_key(db) {
        assigned[db] as nat
    } else {
        claimed
    }
}

/// The map after database `db` is served.
pub open spec fn assigned_after(assigned: Map<u32, usize>, claimed: nat, db: u32) -> Map<u32, usize> {
    assigned.insert(db, slot_for(assigned, claimed, db) as usize)
}

/// The number of slots claimed after database `db` is served.
pub open spec fn claimed_after(assigned: Map<u32, usize>, claimed: nat, db: u32) -> nat {
    if assigned.contains_key(db) {
        claimed
    } else {
        claimed + 1
    }
}

/// One value per database, out of `N` values built up front.
pub struct DatabaseLocal<T, const N: usize> {
    inner: Vec<T>,
    counter: usize,
    mapping: SlotMap,
}

impl<T, const N: usize> SyncMut for DatabaseLocal<T, N> {}

impl<T, const N: usize> DatabaseLocal<T, N> {
    /// The slots' values.
    pub closed spec fn slots(&self) -> Seq<T> {
        self.inner@
    }

    /// Number of slots claimed so far.
    pub closed spec fn claimed(&self) -> nat {
        self.counter as nat
    }

    /// Which database uses which slot.
    pub closed spec fn assigned(&self) -> Map<u32, usize> {
        slot_map(self.mapping)
    }

    /// Every slot claimed belongs to exactly one database, and the slots
    /// claimed are the first ones.
    pub closed spec fn wf(&self) -> bool {
        &&& N <= MAX_DATABASES
        &&& self.inner@.len() == N
        &&& self.counter <= N
        &&& slot_map(self.mapping).dom().finite()
        &&& slot_map(self.mapping).len() == self.counter
        &&& forall|d: u32| #[trigger]
            slot_map(self.mapping).contains_key(d) ==> slot_map(self.mapping)[d] < self.counter
        &&& forall|d: u32, e: u32|
            #![trigger slot_map(self.mapping)[d], slot_map(self.mapping)[e]]
            slot_map(self.mapping).contains_key(d) && slot_map(self.mapping).contains_key(e)
                && d != e ==> slot_map(self.mapping)[d] != slot_map(self.mapping)[e]
    }

    /// A table of `N` slots, filled by calling `f` once for each; no slot is
    /// claimed yet. `N` is at most `MAX_DATABASES`, the fixed capacity of the
    /// heapless map that records which database has which slot.
    pub fn new<F: Fn() -> T>(f: F) -> (r: Self)
        requires
            N <= MAX_DATABASES,
            f.requires(()),
        ensures
            r.wf(),
            r.claimed() == 0,
            r.assigned() == Map::<u32, usize>::empty(),
            r.slots().len() == N,
            forall|i: int| 0 <= i < N ==> f.ensures((), #[trigger] r.slots()[i]),
    {
        let mut inner: Vec<T> = Vec::new();
        let mut i: usize = 0;
        while i < N
            invariant
                i <= N,
                inner@.len() == i,
                f.requires(()),
                forall|j: int| 0 <= j < i ==> f.ensures((), #[trigger] inner@[j]),
            decreases N - i,
        {
            let v = f();
            inner.push(v);
            i = i + 1;
        }
        let mapping = slot_map_new();
        proof {
            slot_map(mapping).dom().lemma_len0_is_empty();
            assert(slot_map(mapping) =~= Map::<u32, usize>::empty());
        }
        DatabaseLocal { inner, counter: 0, mapping }
    }

    /// The value of database `db`: the slot that it claimed before, or else
    /// the next free slot, which it claims now. At most `N` distinct
    /// databases can be served.
    pub fn for_my_database(&mut self, db: u32) -> (r: &mut T)
        requires
            old(self).wf(),
            old(self).assigned().contains_key(db) || old(self).claimed() < N,
        ensures
            final(self).wf(),
            ({
                let i = slot_for(old(self).assigned(), old(self).claimed(), db);
                &&& i < N
                &&& final(self).assigned() == assigned_after(old(self).assigned(), old(self).claimed(), db)
                &&& final(self).claimed() == claimed_after(old(self).assigned(), old(self).claimed(), db)
                &&& *r == old(self).slots()[i as int]
                &&& final(self).slots() == old(self).slots().update(i as int, *final(r))
            }),
    {
        let slot = match slot_map_get(&self.mapping, db) {
            Some(i) => {
                assert(slot_map(self.mapping).insert(db, i) =~= slot_map(self.mapping));
                i
            },
            None => {
                let i = self.counter;
                slot_map_insert(&mut self.mapping, db, i);
                self.counter = self.counter + 1;
                proof {
                    let m = slot_map(self.mapping);
                    assert forall|d: u32, e: u32|
                        #![trigger m[d], m[e]]
                        m.contains_key(d) && m.contains_key(e) && d != e implies m[d] != m[e] by {
                        if d != db && e != db {
                            assert(old(self).assigned().contains_key(d));
                            assert(old(self).assigned().contains_key(e));
                        } else if d == db {
                            assert(old(self).assigned().contains_key(e));
                            assert(old(self).assigned()[e] < old(self).claimed());
                        } else {
                            assert(old(self).assigned().contains_key(d));
                            assert(old(self).assigned()[d] < old(self).claimed());
                        }
                    }
                    assert forall|d: u32| #[trigger] m.contains_key(d) implies m[d] < self.counter by {
                        if d != db {
                            assert(old(self).assigned().contains_key(d));
                        }
                    }
                }
                i
            },
        };
        &mut self.inner[slot]
    }
}

/// On a fresh table, serving the databases A, B, A, C in turn gives them
/// slots 0, 1, 0 and 2: exactly three slots are claimed, A gets the same
/// slot both times, and the map holds exactly A, B and C.
pub proof fn lemma_three_databases(a: u32, b: u32, c: u32)
    requires
        a != b,
        a != c,
        b != c,
    ensures
        ({
            let m0 = Map::<u32, usize>::empty();
            let m1 = assigned_after(m0, 0, a);
            let c1 = claimed_after(m0, 0, a);
            let m2 = assigned_after(m1, c1, b);
            let c2 = claimed_after(m1, c1, b);
            let m3 = assigned_after(m2, c2, a);
            let c3 = claimed_after(m2, c2, a);
            let m4 = assigned_after(m3, c3, c);
            let c4 = claimed_after(m3, c3, c);
            &&& slot_for(m0, 0, a) == 0
            &&& slot_for(m1, c1, b) == 1
            &&& slot_for(m2, c2, a) == 0
            &&& slot_for(m3, c3, c) == 2
            &&& c4 == 3
            &&& m4.dom() == set![a, b, c]
        }),
{
    let m0 = Map::<u32, usize>::empty();
    let m1 = assigned_after(m0, 0, a);
    let m2 = assigned_after(m1, claimed_after(m0, 0, a), b);
    assert(m2.contains_key(a));
    assert(assigned_after(m2, claimed_after(m1, claimed_after(m0, 0, a), b), a) =~= m2);
    let m4 = assigned_after(m2, 2, c);
    assert(m4.dom() =~= set![a, b, c]);
}

} // verus!
