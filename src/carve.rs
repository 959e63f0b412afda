//! Two-phase carve-out of the shared segment. Before the segment exists,
//! modules reserve space; once it is mapped, each reservation receives a
//! disjoint region, in the order the reservations were made.
use vstd::prelude::*;

verus! {

/// A request for `size` bytes; `token` names the completion that the caller
/// runs once the region is known.
#[derive(Clone, Copy, PartialEq, Eq, Structural)]
pub struct Reservation {
    pub size: usize,
    pub token: u64,
}

/// A carved region: `size` bytes at `offset` in the segment, for the
/// reservation that carried `token`.
#[derive(Clone, Copy, PartialEq, Eq, Structural)]
pub struct Grant {
    pub token: u64,
    pub offset: usize,
    pub size: usize,
}

/// The name under which the object for the reservation carrying `token` is
/// registered once its region is carved.
pub struct Publication {
    pub token: u64,
    pub name: String,
    pub type_tag: String,
}

/// Why the segment could not be carved.
#[derive(Clone, Copy, PartialEq, Eq, Structural, Debug)]
pub enum CarveError {
    /// The registry, the dynamic region and the reservations together need
    /// more bytes than the segment holds.
    SegmentTooSmall,
}

/// Where the registry and the dynamic region lie, and what each reservation got.
pub struct SegmentLayout {
    pub registry_offset: usize,
    pub dynamic_offset: usize,
    pub grants: Vec<Grant>,
}

/// Sum of the sizes of `rs`.
pub open spec fn total(rs: Seq<Reservation>) -> nat
    decreases rs.len(),
{
    if rs.len() == 0 {
        0
    } else {
        total(rs.drop_last()) + rs.last().size as nat
    }
}

/// The grants that carving `rs` one after another from `start` yields.
pub open spec fn carved(rs: Seq<Reservation>, start: nat) -> Seq<Grant> {
    Seq::new(
        rs.len(),
        |i: int| Grant { token: rs[i].token, offset: (start + total(rs.take(i))) as usize, size: rs[i].size },
    )
}

/// Whether the segment of `segment_size` bytes holds the registry, the
/// dynamic region and every reservation.
pub open spec fn fits(rs: Seq<Reservation>, segment_size: nat, registry_size: nat, dynamic_size: nat) -> bool {
    registry_size + dynamic_size + total(rs) <= segment_size
}

/// Pending reservations, kept in the order in which they were made.
pub struct AllocationCoordinator {
    pending: Vec<Reservation>,
}

impl View for AllocationCoordinator {
    type V = Seq<Reservation>;

    closed spec fn view(&self) -> Seq<Reservation> {
        self.pending@
    }
}

proof fn lemma_total_take(rs: Seq<Reservation>, i: int)
    requires
        0 <= i < rs.len(),
    ensures
        total(rs.take(i + 1)) == total(rs.take(i)) + rs[i].size,
{
    assert(rs.take(i + 1).drop_last() =~= rs.take(i));
}

/// The total of a prefix is at most the total of the whole.
pub proof fn lemma_total_prefix(rs: Seq<Reservation>, i: int)
    requires
        0 <= i <= rs.len(),
    ensures
        total(rs.take(i)) <= total(rs),
    decreases rs.len() - i,
{
    if i < rs.len() {
        lemma_total_take(rs, i);
        lemma_total_prefix(rs, i + 1);
    } else {
        assert(rs.take(i) =~= rs);
    }
}

proof fn lemma_total_prefix_le(rs: Seq<Reservation>, i: int, j: int)
    requires
        0 <= i <= j <= rs.len(),
    ensures
        total(rs.take(i)) <= total(rs.take(j)),
{
    assert(rs.take(j).take(i) =~= rs.take(i));
    lemma_total_prefix(rs.take(j), i);
}

/// Carving a mapped segment serves every reservation exactly once and in
/// the order made: the i-th grant carries the i-th reservation's token and
/// size, every granted region lies after the registry and the dynamic
/// region and inside the segment, and no two granted regions overlap.
pub proof fn lemma_carved_disjoint(
    rs: Seq<Reservation>,
    segment_size: nat,
    registry_size: nat,
    dynamic_size: nat,
)
    requires
        fits(rs, segment_size, registry_size, dynamic_size),
        segment_size <= usize::MAX,
    ensures
        ({
            let g = carved(rs, registry_size + dynamic_size);
            &&& g.len() == rs.len()
            &&& forall|i: int|
                0 <= i < g.len() ==> (#[trigger] g[i]).token == rs[i].token && g[i].size
                    == rs[i].size
            &&& forall|i: int|
                0 <= i < g.len() ==> registry_size + dynamic_size <= (#[trigger] g[i]).offset
                    && g[i].offset + g[i].size <= segment_size
            &&& forall|i: int, j: int|
                0 <= i < j < g.len() ==> (#[trigger] g[i]).offset + g[i].size <= (
                #[trigger] g[j]).offset
        }),
{
    let start = registry_size + dynamic_size;
    let g = carved(rs, start);
    assert forall|i: int|
        0 <= i < g.len() implies start <= (#[trigger] g[i]).offset && g[i].offset + g[i].size
        <= segment_size by {
        lemma_total_take(rs, i);
        lemma_total_prefix(rs, i + 1);
    }
    assert forall|i: int, j: int| 0 <= i < j < g.len() implies (#[trigger] g[i]).offset
        + g[i].size <= (#[trigger] g[j]).offset by {
        lemma_total_take(rs, i);
        lemma_total_prefix_le(rs, i + 1, j);
        lemma_total_prefix(rs, j);
    }
}

impl AllocationCoordinator {
    /// No reservation yet.
    pub fn new() -> (r: Self)
        ensures
            r@ == Seq::<Reservation>::empty(),
    {
        AllocationCoordinator { pending: Vec::new() }
    }

    /// Queues a request for `size` bytes behind those already made.
    pub fn reserve(&mut self, size: usize, token: u64)
        ensures
            final(self)@ == old(self)@.push(Reservation { size, token }),
    {
        self.pending.push(Reservation { size, token });
    }

    /// Bytes that the pending reservations ask for together, or `None` where
    /// that sum does not fit in a `usize`.
    pub fn requested(&self) -> (r: Option<usize>)
        ensures
            match r {
                Some(n) => n == total(self@),
                None => total(self@) > usize::MAX,
            },
    {
        let mut sum: usize = 0;
        let mut i: usize = 0;
        while i < self.pending.len()
            invariant
                i <= self@.len(),
                sum == total(self@.take(i as int)),
            decreases self@.len() - i,
        {
            proof {
                lemma_total_take(self@, i as int);
            }
            let size = self.pending[i].size;
            if size > usize::MAX - sum {
                proof {
                    lemma_total_prefix(self@, i + 1);
                }
                return None;
            }
            sum = sum + size;
            i = i + 1;
        }
        assert(self@.take(i as int) =~= self@);
        Some(sum)
    }

    /// Lays the segment out once it is mapped: the registry at offset 0, the
    /// dynamic region right after it, then one region per pending reservation,
    /// in the order the reservations were made. The pending list is emptied
    /// either way, so no completion can run twice.
    pub fn map_segment(&mut self, segment_size: usize, registry_size: usize, dynamic_size: usize) -> (r: Result<SegmentLayout, CarveError>)
        ensures
            final(self)@ == Seq::<Reservation>::empty(),
            match r {
                Ok(layout) => {
                    &&& fits(old(self)@, segment_size as nat, registry_size as nat, dynamic_size as nat)
                    &&& layout.registry_offset == 0
                    &&& layout.dynamic_offset == registry_size
                    &&& layout.grants@ == carved(old(self)@, (registry_size + dynamic_size) as nat)
                },
                Err(e) => e == CarveError::SegmentTooSmall && !fits(
                    old(self)@,
                    segment_size as nat,
                    registry_size as nat,
                    dynamic_size as nat,
                ),
            },
    {
        let mut pending: Vec<Reservation> = Vec::new();
        std::mem::swap(&mut pending, &mut self.pending);
        let ghost rs = pending@;
        if registry_size > segment_size || dynamic_size > segment_size - registry_size {
            return Err(CarveError::SegmentTooSmall);
        }
        let start: usize = registry_size + dynamic_size;
        let mut next: usize = start;
        let mut grants: Vec<Grant> = Vec::new();
        let mut i: usize = 0;
        while i < pending.len()
            invariant
                pending@ == rs,
                rs == old(self)@,
                self@ == Seq::<Reservation>::empty(),
                i <= rs.len(),
                start == registry_size + dynamic_size,
                start <= segment_size,
                next == start + total(rs.take(i as int)),
                next <= segment_size,
                grants@ =~= carved(rs, start as nat).take(i as int),
            decreases rs.len() - i,
        {
            proof {
                lemma_total_take(rs, i as int);
            }
            let size = pending[i].size;
            if size > segment_size - next {
                proof {
                    lemma_total_prefix(rs, i + 1);
                }
                return Err(CarveError::SegmentTooSmall);
            }
            grants.push(Grant { token: pending[i].token, offset: next, size });
            next = next + size;
            i = i + 1;
        }
        assert(rs.take(i as int) =~= rs);
        Ok(SegmentLayout { registry_offset: 0, dynamic_offset: registry_size, grants })
    }
}

} // verus!
