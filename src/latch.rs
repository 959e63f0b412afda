//! Wakeable latches. A latch lives in shared memory, can be set by any
//! process, and is waited on by the one process that owns it. Signal flags
//! are edge-triggered: each delivery is observed once.
use crate::types::SyncMut;
use vstd::prelude::*;

verus! {

/// A set of the signals that can wake a worker.
#[derive(Clone, Copy, PartialEq, Eq, Structural, Debug)]
pub struct SignalWakeFlags {
    pub sighup: bool,
    pub sigterm: bool,
}

impl SignalWakeFlags {
    /// No signal.
    pub fn empty() -> (r: Self)
        ensures
            !r.sighup && !r.sigterm,
    {
        SignalWakeFlags { sighup: false, sigterm: false }
    }

    /// The hang-up signal alone (bit 0x1).
    pub fn sighup() -> (r: Self)
        ensures
            r.sighup && !r.sigterm,
    {
        SignalWakeFlags { sighup: true, sigterm: false }
    }

    /// The termination signal alone (bit 0x2).
    pub fn sigterm() -> (r: Self)
        ensures
            !r.sighup && r.sigterm,
    {
        SignalWakeFlags { sighup: false, sigterm: true }
    }

    /// Both sets together.
    pub fn union(self, other: Self) -> (r: Self)
        ensures
            r == self.joined(other),
    {
        SignalWakeFlags { sighup: self.sighup || other.sighup, sigterm: self.sigterm || other.sigterm }
    }

    /// Whether every signal of `other` is in `self`.
    pub fn contains(self, other: Self) -> (r: bool)
        ensures
            r == ((other.sighup ==> self.sighup) && (other.sigterm ==> self.sigterm)),
    {
        (!other.sighup || self.sighup) && (!other.sigterm || self.sigterm)
    }

    /// The set as bits: 0x1 for hang-up, 0x2 for termination.
    pub fn bits(self) -> (r: i32)
        ensures
            r == (if self.sighup { 1int } else { 0int }) + (if self.sigterm { 2int } else { 0int }),
    {
        let h: i32 = if self.sighup { 1 } else { 0 };
        let t: i32 = if self.sigterm { 2 } else { 0 };
        h + t
    }

    /// The set whose bits are `bits`, or `None` where another bit is set.
    pub fn from_bits(bits: i32) -> (r: Option<Self>)
        ensures
            match r {
                Some(f) => 0 <= bits <= 3 && f.sighup == (bits == 1 || bits == 3) && f.sigterm == (
                bits == 2 || bits == 3),
                None => !(0 <= bits <= 3),
            },
    {
        if bits < 0 || bits > 3 {
            None
        } else {
            Some(SignalWakeFlags { sighup: bits == 1 || bits == 3, sigterm: bits == 2 || bits == 3 })
        }
    }
}

/// A latch in shared memory: a wake bit, and the process that owns it.
pub struct SharedLatch {
    is_set: bool,
    owner: Option<u32>,
}

impl SyncMut for SharedLatch {}

/// Why a wait ended, or that it has to go on.
#[derive(Clone, Copy, PartialEq, Eq, Structural, Debug)]
pub enum WaitOutcome {
    /// The latch was set; its wake bit is now clear.
    LatchSet,
    /// The supervisor process is gone.
    SupervisorGone,
    /// The timeout elapsed.
    TimedOut,
    /// Nothing happened yet: block until woken or until the timeout, then ask again.
    Sleep,
    /// The caller does not own the latch.
    NotOwner,
}

/// The outcome of one wait step, as `OwnedLatch::wait` decides it.
pub open spec fn wait_outcome(
    latch: SharedLatch,
    pid: u32,
    timeout_ms: Option<u64>,
    elapsed_ms: u64,
    supervisor_alive: bool,
) -> WaitOutcome {
    if latch.owner() != Some(pid) {
        WaitOutcome::NotOwner
    } else if latch.is_set() {
        WaitOutcome::LatchSet
    } else if !supervisor_alive {
        WaitOutcome::SupervisorGone
    } else if timeout_ms is Some && elapsed_ms >= timeout_ms->0 {
        WaitOutcome::TimedOut
    } else {
        WaitOutcome::Sleep
    }
}

/// The latch after a wait step: an owner's wake bit is cleared whenever the
/// wait ends.
pub open spec fn after_wait(latch: SharedLatch, outcome: WaitOutcome) -> SharedLatch {
    match outcome {
        WaitOutcome::Sleep | WaitOutcome::NotOwner => latch,
        _ => latch.cleared(),
    }
}

impl SharedLatch {
    pub closed spec fn is_set(self) -> bool {
        self.is_set
    }

    pub closed spec fn owner(self) -> Option<u32> {
        self.owner
    }

    /// The same latch with its wake bit set.
    pub closed spec fn raised(self) -> SharedLatch {
        SharedLatch { is_set: true, owner: self.owner }
    }

    /// The same latch with no owner.
    pub closed spec fn released(self) -> SharedLatch {
        SharedLatch { is_set: self.is_set, owner: None }
    }

    /// The same latch with its wake bit clear.
    pub closed spec fn cleared(self) -> SharedLatch {
        SharedLatch { is_set: false, owner: self.owner }
    }

    /// An unowned latch whose wake bit is clear.
    pub fn new() -> (r: Self)
        ensures
            !r.is_set(),
            r.owner() == None::<u32>,
    {
        SharedLatch { is_set: false, owner: None }
    }

    /// Makes process `pid` the owner. Where another process owns the latch
    /// already, nothing changes and `None` comes back. Ownership lasts until
    /// the handle's `disown` is called; `own_while` gives it back by itself. The handle refers to
    /// the latch by `id`, its place in the shared segment.
    pub fn own(&mut self, pid: u32, id: u64) -> (r: Option<OwnedLatch>)
        ensures
            match old(self).owner() {
                None => final(self).owner() == Some(pid) && final(self).is_set() == old(
                    self,
                ).is_set() && r is Some && r->0.pid() == pid && r->0.id() == id,
                Some(_) => *final(self) == *old(self) && r is None,
            },
    {
        match self.owner {
            None => {
                self.owner = Some(pid);
                Some(OwnedLatch { pid, id })
            },
            Some(_) => None,
        }
    }

    /// Sets the wake bit. Any process may call this. The result is the owner,
    /// which is to be woken at once if it sleeps.
    pub fn set_and_wake_up(&mut self) -> (r: Option<u32>)
        ensures
            *final(self) == old(self).raised(),
            final(self).is_set(),
            final(self).owner() == old(self).owner(),
            r == old(self).owner(),
    {
        self.is_set = true;
        self.owner
    }
}

/// Whether `body`, run as the owner of `before` with the handle of `pid`
/// and `id`, once the latch was joined to the signals in `wake`, could have
/// answered `result` and left the latch and signal state from which
/// releasing gives `after` and `signals_after`.
pub open spec fn ran_owned<R, F: FnOnce(OwnedLatch, SharedLatch, SignalState) -> (SharedLatch, SignalState, R)>(
    body: F,
    pid: u32,
    id: u64,
    wake: SignalWakeFlags,
    before: SharedLatch,
    signals_before: SignalState,
    after: SharedLatch,
    signals_after: SignalState,
    result: R,
) -> bool {
    exists|o: OwnedLatch, l0: SharedLatch, s0: SignalState, l1: SharedLatch, s1: SignalState| {
        &&& o.pid() == pid
        &&& o.id() == id
        &&& l0.owner() == Some(pid)
        &&& l0.is_set() == before.is_set()
        &&& s0.pending() == signals_before.pending()
        &&& s0.installed() == signals_before.installed().joined(wake)
        &&& (forall|x: u64| s0.attached(x) == (signals_before.attached(x) || x == id))
        &&& #[trigger] body.ensures((o, l0, s0), (l1, s1, result))
        &&& after.is_set() == l1.is_set()
        &&& signals_after.pending() == s1.pending()
        &&& signals_after.installed() == s1.installed()
        &&& forall|x: u64| signals_after.attached(x) == (s1.attached(x) && x != id)
    }
}

impl SharedLatch {
    /// Runs `body` as the latch's owner: the latch is owned by `pid` and
    /// joined to the signals in `wake` for the length of `body`, which gets
    /// the handle, the latch and the signal state, and hands the last two
    /// back. Afterwards the latch is unowned and no signal reaches it any
    /// more, whatever `body` did. Where another process owns the latch,
    /// `body` does not run and nothing changes.
    pub fn own_while<R, F>(
        &mut self,
        signals: &mut SignalState,
        pid: u32,
        id: u64,
        wake: SignalWakeFlags,
        body: F,
    ) -> (r: Option<R>) where F: FnOnce(OwnedLatch, SharedLatch, SignalState) -> (SharedLatch, SignalState, R)
        requires
            forall|o: OwnedLatch, l: SharedLatch, s: SignalState|
                o.pid() == pid && o.id() == id && l.owner() == Some(pid) ==> #[trigger] body.requires((o, l, s)),
        ensures
            old(self).owner() is Some ==> {
                &&& r is None
                &&& *final(self) == *old(self)
                &&& final(signals).pending() == old(signals).pending()
                &&& final(signals).installed() == old(signals).installed()
                &&& forall|x: u64| final(signals).attached(x) == old(signals).attached(x)
            },
            old(self).owner() is None ==> {
                &&& r is Some
                &&& final(self).owner() == None::<u32>
                &&& !final(signals).attached(id)
                &&& ran_owned(body, pid, id, wake, *old(self), *old(signals), *final(self), *final(signals), r->0)
            },
    {
        let owned = match self.own(pid, id) {
            Some(o) => o,
            None => {
                return None;
            },
        };
        owned.attach_signal_handlers(signals, wake);
        let mut latch = SharedLatch::new();
        std::mem::swap(&mut latch, self);
        let mut state = SignalState::new();
        std::mem::swap(&mut state, signals);
        let ghost o = owned;
        let ghost l0 = latch;
        let ghost s0 = state;
        let (mut after, mut state_after, r) = body(owned, latch, state);
        let ghost l1 = after;
        let ghost s1 = state_after;
        after.owner = None;
        state_after.detach(id);
        *self = after;
        *signals = state_after;
        assert(ran_owned(body, pid, id, wake, *old(self), *old(signals), *self, *signals, r)) by {
            assert(body.ensures((o, l0, s0), (l1, s1, r)));
        }
        Some(r)
    }
}

/// The owner's handle on a latch: only it may wait, and read signal flags.
#[derive(Debug)]
pub struct OwnedLatch {
    pid: u32,
    id: u64,
}

impl OwnedLatch {
    /// The owning process.
    pub closed spec fn pid(&self) -> u32 {
        self.pid
    }

    /// The latch's place in the shared segment.
    pub closed spec fn id(&self) -> u64 {
        self.id
    }

    /// One step of waiting on `latch`, `elapsed_ms` after the wait began:
    /// returns at once where the latch is set (clearing it), where the
    /// supervisor is gone, or where the timeout has passed; `Sleep` otherwise.
    /// Without a timeout, only a set latch or the supervisor's exit end it.
    pub fn wait(
        &self,
        latch: &mut SharedLatch,
        timeout_ms: Option<u64>,
        elapsed_ms: u64,
        supervisor_alive: bool,
    ) -> (r: WaitOutcome)
        ensures
            r == wait_outcome(*old(latch), self.pid(), timeout_ms, elapsed_ms, supervisor_alive),
            *final(latch) == after_wait(*old(latch), r),
            final(latch).owner() == old(latch).owner(),
            r != WaitOutcome::Sleep && r != WaitOutcome::NotOwner ==> !final(latch).is_set(),
            r == WaitOutcome::Sleep || r == WaitOutcome::NotOwner ==> final(latch).is_set() == old(latch).is_set(),
    {
        if latch.owner != Some(self.pid) {
            return WaitOutcome::NotOwner;
        }
        let r = if latch.is_set {
            WaitOutcome::LatchSet
        } else if !supervisor_alive {
            WaitOutcome::SupervisorGone
        } else {
            match timeout_ms {
                Some(t) => if elapsed_ms >= t {
                    WaitOutcome::TimedOut
                } else {
                    WaitOutcome::Sleep
                },
                None => WaitOutcome::Sleep,
            }
        };
        if r != WaitOutcome::Sleep {
            latch.is_set = false;
        }
        r
    }

    /// Sets the owned latch's wake bit.
    pub fn set_and_wake_up(&self, latch: &mut SharedLatch)
        ensures
            *final(latch) == old(latch).raised(),
            final(latch).is_set(),
            final(latch).owner() == old(latch).owner(),
    {
        latch.is_set = true;
    }

    /// Gives up ownership: the latch is free again where this process owned
    /// it, and the signal state no longer reaches it.
    pub fn disown(&self, latch: &mut SharedLatch, signals: &mut SignalState)
        ensures
            old(latch).owner() == Some(self.pid()) ==> *final(latch) == old(latch).released(),
            old(latch).owner() == Some(self.pid()) ==> final(latch).owner() == None::<u32> && final(latch).is_set() == old(latch).is_set(),
            old(latch).owner() != Some(self.pid()) ==> *final(latch) == *old(latch),
            final(signals).pending() == old(signals).pending(),
            final(signals).installed() == old(signals).installed(),
            forall|x: u64| final(signals).attached(x) == (old(signals).attached(x) && x != self.id()),
    {
        if latch.owner == Some(self.pid) {
            latch.owner = None;
        }
        signals.detach(self.id);
    }

    /// Joins this latch to those woken by signals, and installs handlers for
    /// the signals in `wake`.
    pub fn attach_signal_handlers(&self, signals: &mut SignalState, wake: SignalWakeFlags)
        ensures
            final(signals).pending() == old(signals).pending(),
            final(signals).installed() == old(signals).installed().joined(wake),
            forall|x: u64| final(signals).attached(x) == (old(signals).attached(x) || x == self.id()),
    {
        signals.attach(self.id, wake);
    }

    /// Whether `flag` was delivered since it was last asked; asking clears it.
    pub fn signal_received(&self, signals: &mut SignalState, flag: SignalWakeFlags) -> (r: bool)
        ensures
            r == received(old(signals).pending(), flag),
            final(signals).pending() == after_received(old(signals).pending(), flag),
            final(signals).installed() == old(signals).installed(),
            forall|x: u64| final(signals).attached(x) == old(signals).attached(x),
    {
        signals.take(flag)
    }
}

/// Whether `flag` names exactly one signal.
pub open spec fn is_single(flag: SignalWakeFlags) -> bool {
    flag.sighup != flag.sigterm
}

/// Whether a query for `flag` finds a pending signal: only a flag that names
/// exactly one signal is ever reported.
pub open spec fn received(pending: SignalWakeFlags, flag: SignalWakeFlags) -> bool {
    is_single(flag) && ((flag.sighup && pending.sighup) || (flag.sigterm && pending.sigterm))
}

/// The pending signals after a query for `flag`: the signal it names is
/// cleared; a query naming no signal, or both, changes nothing.
pub open spec fn after_received(pending: SignalWakeFlags, flag: SignalWakeFlags) -> SignalWakeFlags {
    if is_single(flag) {
        SignalWakeFlags {
            sighup: pending.sighup && !flag.sighup,
            sigterm: pending.sigterm && !flag.sigterm,
        }
    } else {
        pending
    }
}

/// The pending signals after `signal` arrives, where handlers for `installed`
/// are in place.
pub open spec fn after_delivery(
    pending: SignalWakeFlags,
    installed: SignalWakeFlags,
    signal: SignalWakeFlags,
) -> SignalWakeFlags {
    SignalWakeFlags {
        sighup: pending.sighup || (signal.sighup && installed.sighup),
        sigterm: pending.sigterm || (signal.sigterm && installed.sigterm),
    }
}

/// Once its latch is set, the owner's wait ends at once with `LatchSet`,
/// whatever the timeout and however little time has passed, and the wake bit
/// is clear again afterwards. Unset, with no timeout and the supervisor
/// alive, the wait goes on.
pub proof fn lemma_set_then_wait_wakes(latch: SharedLatch, pid: u32, elapsed_ms: u64, supervisor_alive: bool, timeout_ms: Option<u64>)
    requires
        latch.owner() == Some(pid),
    ensures
        wait_outcome(latch.raised(), pid, timeout_ms, elapsed_ms, supervisor_alive) == WaitOutcome::LatchSet,
        !after_wait(latch.raised(), WaitOutcome::LatchSet).is_set(),
        after_wait(latch.raised(), WaitOutcome::LatchSet).owner() == Some(pid),
        !latch.is_set() ==> wait_outcome(latch, pid, None, elapsed_ms, true) == WaitOutcome::Sleep,
{
}

/// A delivered signal whose handler is installed is reported exactly once:
/// the first query for it answers `true`, an immediate second one `false`.
/// A query naming both signals, or none, answers `false` and clears nothing.
pub proof fn lemma_signal_received_once(pending: SignalWakeFlags, installed: SignalWakeFlags, signal: SignalWakeFlags, other: SignalWakeFlags)
    requires
        is_single(signal),
        installed.contains_spec(signal),
        !is_single(other),
    ensures
        received(after_delivery(pending, installed, signal), signal),
        !received(after_received(after_delivery(pending, installed, signal), signal), signal),
        !received(pending, other),
        after_received(pending, other) == pending,
{
}

/// One latch that a signal wakes, while `live` holds.
#[derive(Clone, Copy, PartialEq, Eq, Structural, Debug)]
pub struct LatchRecord {
    pub id: u64,
    pub live: bool,
}

/// The process's signal bookkeeping: pending flags, installed handlers, and
/// the latches that a signal wakes.
pub struct SignalState {
    pending: SignalWakeFlags,
    installed: SignalWakeFlags,
    latches: Vec<LatchRecord>,
}

impl SignalState {
    pub closed spec fn pending(&self) -> SignalWakeFlags {
        self.pending
    }

    pub closed spec fn installed(&self) -> SignalWakeFlags {
        self.installed
    }

    /// Whether a signal wakes the latch `id`.
    pub closed spec fn attached(&self, id: u64) -> bool {
        exists|i: int| 0 <= i < self.latches@.len() && #[trigger] self.latches@[i] == (LatchRecord { id, live: true })
    }

    /// No signal pending, no handler, no latch.
    pub fn new() -> (r: Self)
        ensures
            r.pending() == (SignalWakeFlags { sighup: false, sigterm: false }),
            r.installed() == (SignalWakeFlags { sighup: false, sigterm: false }),
            forall|x: u64| !r.attached(x),
    {
        SignalState { pending: SignalWakeFlags::empty(), installed: SignalWakeFlags::empty(), latches: Vec::new() }
    }

    fn attach(&mut self, id: u64, wake: SignalWakeFlags)
        ensures
            final(self).pending() == old(self).pending(),
            final(self).installed() == old(self).installed().joined(wake),
            forall|x: u64| final(self).attached(x) == (old(self).attached(x) || x == id),
    {
        let ghost before = self.latches@;
        self.latches.push(LatchRecord { id, live: true });
        self.installed = self.installed.union(wake);
        proof {
            assert forall|x: u64| self.attached(x) == (old(self).attached(x) || x == id) by {
                let r = LatchRecord { id: x, live: true };
                if self.attached(x) && x != id {
                    let j = choose|j: int| 0 <= j < self.latches@.len() && #[trigger] self.latches@[j] == r;
                    assert(before[j] == r);
                }
                if old(self).attached(x) {
                    let j = choose|j: int| 0 <= j < before.len() && #[trigger] before[j] == r;
                    assert(self.latches@[j] == r);
                }
                if x == id {
                    assert(self.latches@[before.len() as int] == r);
                }
            }
        }
    }

    fn detach(&mut self, id: u64)
        ensures
            final(self).pending() == old(self).pending(),
            final(self).installed() == old(self).installed(),
            forall|x: u64| final(self).attached(x) == (old(self).attached(x) && x != id),
    {
        let ghost orig = self.latches@;
        let mut i: usize = 0;
        while i < self.latches.len()
            invariant
                self.latches@.len() == orig.len(),
                self.pending == old(self).pending,
                self.installed == old(self).installed,
                orig == old(self).latches@,
                i <= orig.len(),
                forall|j: int|
                    0 <= j < orig.len() ==> #[trigger] self.latches@[j] == (if j < i && orig[j].id == id {
                        LatchRecord { id, live: false }
                    } else {
                        orig[j]
                    }),
            decreases orig.len() - i,
        {
            if self.latches[i].id == id {
                self.latches.set(i, LatchRecord { id, live: false });
            }
            i = i + 1;
        }
        proof {
            assert forall|x: u64| self.attached(x) == (old(self).attached(x) && x != id) by {
                let r = LatchRecord { id: x, live: true };
                if self.attached(x) {
                    let j = choose|j: int| 0 <= j < self.latches@.len() && #[trigger] self.latches@[j] == r;
                    assert(orig[j] == r);
                }
                if old(self).attached(x) && x != id {
                    let j = choose|j: int| 0 <= j < orig.len() && #[trigger] orig[j] == r;
                    assert(self.latches@[j] == r);
                }
            }
        }
    }

    fn take(&mut self, flag: SignalWakeFlags) -> (r: bool)
        ensures
            r == received(old(self).pending(), flag),
            final(self).pending() == after_received(old(self).pending(), flag),
            final(self).installed() == old(self).installed(),
            final(self).latches@ == old(self).latches@,
            forall|x: u64| final(self).attached(x) == old(self).attached(x),
    {
        if flag.sighup == flag.sigterm {
            return false;
        }
        let r = (flag.sighup && self.pending.sighup) || (flag.sigterm && self.pending.sigterm);
        self.pending = SignalWakeFlags {
            sighup: self.pending.sighup && !flag.sighup,
            sigterm: self.pending.sigterm && !flag.sigterm,
        };
        r
    }

    /// A signal arrives: where a handler for it is installed, its flag is
    /// marked. The result lists the latches to set, every attached one, or
    /// none where no installed handler matched.
    pub fn deliver(&mut self, signal: SignalWakeFlags) -> (r: Vec<u64>)
        ensures
            final(self).pending() == after_delivery(old(self).pending(), old(self).installed(), signal),
            final(self).installed() == old(self).installed(),
            forall|x: u64| final(self).attached(x) == old(self).attached(x),
            forall|x: u64|
                r@.contains(x) <==> (old(self).attached(x) && old(self).installed().contains_spec(signal)),
    {
        let matched = (signal.sighup && self.installed.sighup) || (signal.sigterm && self.installed.sigterm);
        self.pending = SignalWakeFlags {
            sighup: self.pending.sighup || (signal.sighup && self.installed.sighup),
            sigterm: self.pending.sigterm || (signal.sigterm && self.installed.sigterm),
        };
        let mut out: Vec<u64> = Vec::new();
        if !matched {
            return out;
        }
        let mut i: usize = 0;
        while i < self.latches.len()
            invariant
                i <= self.latches@.len(),
                forall|x: u64|
                    out@.contains(x) <==> exists|j: int|
                        0 <= j < i && #[trigger] self.latches@[j] == (LatchRecord { id: x, live: true }),
            decreases self.latches@.len() - i,
        {
            let rec = self.latches[i];
            let ghost before = out@;
            if rec.live {
                out.push(rec.id);
            }
            proof {
                assert forall|x: u64|
                    out@.contains(x) <==> exists|j: int|
                        0 <= j < i + 1 && #[trigger] self.latches@[j] == (LatchRecord { id: x, live: true }) by {
                    let r = LatchRecord { id: x, live: true };
                    if out@.contains(x) {
                        let k = choose|k: int| 0 <= k < out@.len() && out@[k] == x;
                        if k < before.len() {
                            assert(before[k] == x);
                            assert(before.contains(x));
                        } else {
                            assert(self.latches@[i as int] == r);
                        }
                    }
                    if exists|j: int| 0 <= j < i + 1 && #[trigger] self.latches@[j] == r {
                        let j = choose|j: int| 0 <= j < i + 1 && #[trigger] self.latches@[j] == r;
                        if j < i {
                            assert(before.contains(x));
                            let k = choose|k: int| 0 <= k < before.len() && before[k] == x;
                            assert(out@[k] == x);
                        } else {
                            assert(out@[before.len() as int] == x);
                        }
                    }
                }
            }
            i = i + 1;
        }
        out
    }
}

impl SignalWakeFlags {
    /// The signals of `self` and of `other`.
    pub open spec fn joined(self, other: Self) -> Self {
        SignalWakeFlags { sighup: self.sighup || other.sighup, sigterm: self.sigterm || other.sigterm }
    }

    /// Whether `self` and `other` share a signal.
    pub open spec fn contains_spec(self, other: Self) -> bool {
        (other.sighup && self.sighup) || (other.sigterm && self.sigterm)
    }
}

} // verus!
