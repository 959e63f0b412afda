//! Shared-memory coordination for independently built server extension modules:
//! a bounded name registry, a two-phase carve-out of one shared segment, named
//! reader/writer locks, wakeable latches with coalesced signal flags, a
//! per-database slot table, and the module handle that ties them together.
use vstd::prelude::*;

pub mod carve;
pub mod control;
pub mod db;
pub mod latch;
pub mod lwlock;
pub mod shmem;
pub mod types;
pub mod workers;

use crate::carve::{AllocationCoordinator, Publication};
use crate::types::truncated;
use vstd::string::StrSliceExecFns;
use crate::workers::{
    identity_of, replace_all, replace_all_exec, worker_extra, PendingWorker, WorkerSpec, NAME_BYTES,
};

verus! {

/// Version of the module protocol that this library speaks.
pub const VERSION: u8 = 0;

/// Signature record that a module exports so that a loader can tell whether
/// it was built for a compatible protocol.
pub struct Magic {
    /// Size of the record, as the module saw it.
    magic_size: usize,
    /// Protocol version the module was built for.
    version: u8,
}

impl Magic {
    /// The record that a module built against this library exports.
    pub fn new() -> (r: Self)
        ensures
            r.size() == core::mem::size_of::<Magic>(),
            r.version() == VERSION,
    {
        Magic { magic_size: core::mem::size_of::<Magic>(), version: VERSION }
    }

    /// Whether a module's record matches this library's layout and protocol.
    pub fn is_compatible(&self) -> (r: bool)
        ensures
            r == (self.size() == core::mem::size_of::<Magic>() && self.version() == VERSION),
    {
        self.magic_size == core::mem::size_of::<Magic>() && self.version == VERSION
    }

    pub closed spec fn size(&self) -> usize {
        self.magic_size
    }

    pub closed spec fn version(&self) -> u8 {
        self.version
    }
}

/// Size of the segment's dynamic region when the setting gives none.
pub const DEFAULT_SHMEM_SIZE: u64 = 16 * 1024 * 1024;

/// parse_size's error, held opaque: only whether parsing failed is used.
#[verifier::external_type_specification]
#[verifier::external_body]
pub struct ExParseSizeError(parse_size::Error);

/// The byte count that a size string such as `16 MiB` denotes, if it is one.
pub uninterp spec fn parsed_size(s: Seq<char>) -> Option<u64>;

/// Number of ASCII digits in `s`.
pub open spec fn digit_count(s: Seq<char>) -> nat
    decreases s.len(),
{
    if s.len() == 0 {
        0
    } else {
        digit_count(s.drop_last()) + if '0' <= s.last() && s.last() <= '9' { 1nat } else { 0nat }
    }
}

/// Most digits that a size setting may hold: `parse_size` overflows its
/// arithmetic on longer numbers.
pub const MAX_SIZE_DIGITS: usize = 20;

/// Relies on `parse_size::parse_size`: it reads a number with an optional
/// decimal or binary unit, and the outcome depends on the string alone. With
/// more than 20 digits its mantissa or exponent arithmetic can overflow, so
/// such strings are not handed to it.
#[verifier::external_body]
fn parse_size_of(s: &str) -> (r: Result<u64, parse_size::Error>)
    requires
        digit_count(s@) <= 20,
    ensures
        r is Ok <==> parsed_size(s@) is Some,
        r is Ok ==> r->Ok_0 == parsed_size(s@)->0,
{
    parse_size::parse_size(s)
}

/// The parsed size, or the default where the setting could not be read.
pub open spec fn configured_size(parsed: Option<u64>) -> u64 {
    match parsed {
        Some(n) => n,
        None => DEFAULT_SHMEM_SIZE,
    }
}

/// The size of the dynamic region for a parsed setting: the parsed size, or
/// the default where the setting could not be read.
pub fn size_or_default(parsed: Option<u64>) -> (r: u64)
    ensures
        r == configured_size(parsed),
{
    match parsed {
        Some(n) => n,
        None => DEFAULT_SHMEM_SIZE,
    }
}

/// Number of ASCII digits in `s`.
fn count_digits(s: &str) -> (r: usize)
    ensures
        r == digit_count(s@),
{
    let n: usize = s.unicode_len();
    let mut count: usize = 0;
    let mut i: usize = 0;
    while i < n
        invariant
            n == s@.len(),
            i <= n,
            count == digit_count(s@.take(i as int)),
            count <= i,
        decreases n - i,
    {
        assert(s@.take(i + 1).drop_last() =~= s@.take(i as int));
        let c = s.get_char(i);
        if '0' <= c && c <= '9' {
            count = count + 1;
        }
        i = i + 1;
    }
    assert(s@.take(n as int) =~= s@);
    count
}

/// The size of the dynamic region for the configured setting: the parsed
/// size, or the default where the setting is absent, is not a size, or
/// holds more than `MAX_SIZE_DIGITS` digits.
pub fn shmem_size(setting: Option<&str>) -> (r: u64)
    ensures
        setting is Some && digit_count(setting->0@) <= MAX_SIZE_DIGITS ==> r == configured_size(
            parsed_size(setting->0@),
        ),
        setting is Some && digit_count(setting->0@) > MAX_SIZE_DIGITS ==> r == DEFAULT_SHMEM_SIZE,
        setting is None ==> r == DEFAULT_SHMEM_SIZE,
{
    match setting {
        None => DEFAULT_SHMEM_SIZE,
        Some(text) => {
            if count_digits(text) > MAX_SIZE_DIGITS {
                return DEFAULT_SHMEM_SIZE;
            }
            let parsed = match parse_size_of(text) {
                Ok(n) => Some(n),
                Err(_) => None,
            };
            size_or_default(parsed)
        },
    }
}

/// When a module was loaded, which decides how its requests are served.
#[derive(Clone, Copy, PartialEq, Eq, Structural, Debug)]
pub enum LoadPhase {
    /// During the host's preload, before the segment exists.
    Preload,
    /// Later, once the segment is mapped.
    Dynamic,
}

/// How a request for shared memory is served.
#[derive(Clone, Copy, PartialEq, Eq, Structural, Debug)]
pub enum AllocAction {
    /// Queued; its completion runs once the segment is mapped.
    Deferred,
    /// To be carved from the dynamic region now, and completed at once.
    CarveNow { size: usize, token: u64 },
}

/// How a worker registration is served.
pub enum WorkerAction {
    /// Kept until a database is known.
    Deferred,
    /// To be started now, as described.
    StartNow(WorkerSpec),
}

/// The placeholder in a worker's display name that stands for its database.
pub open spec fn placeholder() -> Seq<char> {
    seq!['{', '{', 'D', 'A', 'T', 'A', 'B', 'A', 'S', 'E', '}', '}']
}

/// The display name that a worker gets in `database`: the placeholder
/// replaced by the database's name, cut to `NAME_BYTES` bytes.
pub open spec fn display_name(template: Seq<char>, database: Seq<char>) -> Seq<char> {
    truncated(replace_all(template, placeholder(), database), NAME_BYTES as nat)
}

/// The handle that a module receives at initialization: its identity, and
/// the phase that decides how its requests are served.
pub struct Handle {
    phase: LoadPhase,
    library_name: String,
    name: String,
    version: String,
}

impl Handle {
    pub closed spec fn phase(&self) -> LoadPhase {
        self.phase
    }

    pub closed spec fn library(&self) -> Seq<char> {
        self.library_name@
    }

    pub closed spec fn name(&self) -> Seq<char> {
        self.name@
    }

    pub closed spec fn version(&self) -> Seq<char> {
        self.version@
    }

    /// The handle of a module loaded during preload.
    pub fn make_static(name: String, version: String, library_name: &str) -> (r: Self)
        ensures
            r.phase() == LoadPhase::Preload,
            r.name() == name@,
            r.version() == version@,
            r.library() == library_name@,
    {
        Handle { phase: LoadPhase::Preload, library_name: library_name.to_owned(), name, version }
    }

    /// The handle of a module loaded once the segment is mapped.
    pub fn make_dynamic(name: String, version: String, library_name: &str) -> (r: Self)
        ensures
            r.phase() == LoadPhase::Dynamic,
            r.name() == name@,
            r.version() == version@,
            r.library() == library_name@,
    {
        Handle { phase: LoadPhase::Dynamic, library_name: library_name.to_owned(), name, version }
    }

    /// When the module was loaded.
    pub fn load_phase(&self) -> (r: LoadPhase)
        ensures
            r == self.phase(),
    {
        self.phase
    }

    /// The module's library name.
    pub fn library_name(&self) -> (r: String)
        ensures
            r@ == self.library(),
    {
        self.library_name.clone()
    }

    /// Asks for `size` bytes of shared memory, to be completed through
    /// `token`. During preload the request is queued behind earlier ones;
    /// afterwards it is to be carved at once, and nothing is queued.
    pub fn allocate_shmem(&self, coordinator: &mut AllocationCoordinator, size: usize, token: u64) -> (r: AllocAction)
        ensures
            self.phase() == LoadPhase::Preload ==> r == AllocAction::Deferred && final(coordinator)@
                == old(coordinator)@.push(crate::carve::Reservation { size, token }),
            self.phase() == LoadPhase::Dynamic ==> r == (AllocAction::CarveNow { size, token })
                && final(coordinator)@ == old(coordinator)@,
    {
        match self.phase {
            LoadPhase::Preload => {
                coordinator.reserve(size, token);
                AllocAction::Deferred
            },
            LoadPhase::Dynamic => AllocAction::CarveNow { size, token },
        }
    }

    /// Asks for `size` bytes of shared memory for an object to be registered
    /// as `name`. During preload the request is queued, and `name` is recorded
    /// for its token so that the carved object is registered once the segment
    /// is mapped; afterwards it is to be carved at once, and the caller
    /// registers the object itself.
    pub fn allocate_shmem_with(
        &self,
        coordinator: &mut AllocationCoordinator,
        publications: &mut Vec<Publication>,
        name: &str,
        type_tag: &str,
        size: usize,
        token: u64,
    ) -> (r: AllocAction)
        ensures
            self.phase() == LoadPhase::Preload ==> {
                &&& r == AllocAction::Deferred
                &&& final(coordinator)@ == old(coordinator)@.push(crate::carve::Reservation { size, token })
                &&& final(publications)@.len() == old(publications)@.len() + 1
                &&& final(publications)@.take(old(publications)@.len() as int) == old(publications)@
                &&& final(publications)@.last().token == token
                &&& final(publications)@.last().name@ == name@
                &&& final(publications)@.last().type_tag@ == type_tag@
            },
            self.phase() == LoadPhase::Dynamic ==> r == (AllocAction::CarveNow { size, token })
                && final(coordinator)@ == old(coordinator)@ && final(publications)@ == old(publications)@,
    {
        match self.phase {
            LoadPhase::Preload => {
                coordinator.reserve(size, token);
                let ghost before = publications@;
                publications.push(Publication { token, name: name.to_owned(), type_tag: type_tag.to_owned() });
                assert(publications@.take(before.len() as int) =~= before);
                AllocAction::Deferred
            },
            LoadPhase::Dynamic => AllocAction::CarveNow { size, token },
        }
    }

    /// Asks for `size` bytes for a value to be registered as `name`, the
    /// value being written by the completion that `token` names. This is
    /// `allocate_shmem_with` for a value that is already built.
    pub fn allocate_shmem_for(
        &self,
        coordinator: &mut AllocationCoordinator,
        publications: &mut Vec<Publication>,
        name: &str,
        type_tag: &str,
        size: usize,
        token: u64,
    ) -> (r: AllocAction)
        ensures
            self.phase() == LoadPhase::Preload ==> {
                &&& r == AllocAction::Deferred
                &&& final(coordinator)@ == old(coordinator)@.push(crate::carve::Reservation { size, token })
                &&& final(publications)@.len() == old(publications)@.len() + 1
                &&& final(publications)@.take(old(publications)@.len() as int) == old(publications)@
                &&& final(publications)@.last().token == token
                &&& final(publications)@.last().name@ == name@
                &&& final(publications)@.last().type_tag@ == type_tag@
            },
            self.phase() == LoadPhase::Dynamic ==> r == (AllocAction::CarveNow { size, token })
                && final(coordinator)@ == old(coordinator)@ && final(publications)@ == old(publications)@,
    {
        self.allocate_shmem_with(coordinator, publications, name, type_tag, size, token)
    }

    /// Registers a worker. During preload it waits in `pending`, tagged with
    /// this module's name and version, until a database is known. Afterwards
    /// it is to start now in `database`, its display name's placeholder
    /// filled in and its argument set to `user@database`.
    pub fn register_bgworker(
        &self,
        pending: &mut Vec<PendingWorker>,
        worker: WorkerSpec,
        user: &str,
        database: &str,
    ) -> (r: WorkerAction)
        ensures
            self.phase() == LoadPhase::Preload ==> {
                &&& r is Deferred
                &&& final(pending)@.len() == old(pending)@.len() + 1
                &&& final(pending)@.take(old(pending)@.len() as int) == old(pending)@
                &&& final(pending)@.last().extension@ == self.name()
                &&& final(pending)@.last().version@ == self.version()
                &&& final(pending)@.last().worker == worker
            },
            self.phase() == LoadPhase::Dynamic ==> {
                &&& final(pending)@ == old(pending)@
                &&& r is StartNow
                &&& r->StartNow_0.name@ == display_name(worker.name@, database@)
                &&& r->StartNow_0.extra@ == identity_of(user@, database@)
                &&& r->StartNow_0.function == worker.function
                &&& r->StartNow_0.library == worker.library
            },
    {
        match self.phase {
            LoadPhase::Preload => {
                let ghost before = pending@;
                pending.push(PendingWorker { extension: self.name.clone(), version: self.version.clone(), worker });
                assert(pending@.take(before.len() as int) =~= before);
                WorkerAction::Deferred
            },
            LoadPhase::Dynamic => {
                proof {
                    reveal_strlit("{{DATABASE}}");
                    assert("{{DATABASE}}"@ =~= placeholder());
                }
                let substituted = replace_all_exec(worker.name.as_str(), "{{DATABASE}}", database);
                let name = crate::types::truncate_to(substituted.as_str(), NAME_BYTES);
                let extra = worker_extra(user, database);
                WorkerAction::StartNow(WorkerSpec { name, function: worker.function, library: worker.library, extra })
            },
        }
    }
}

} // verus!
