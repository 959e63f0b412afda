//! Named reader/writer locks. Each lock belongs to a tranche, an identifier
//! registered once per process for each distinct name. Acquisition is a step
//! that either grants the lock or says to wait: the caller blocks on the host
//! primitive and asks again.
use crate::types::SyncMut;
use vstd::prelude::*;

verus! {

/// The tranches that this process has registered, by name; a tranche's
/// identifier is its position.
pub struct TrancheRegistry {
    names: Vec<String>,
}

impl View for TrancheRegistry {
    type V = Seq<Seq<char>>;

    closed spec fn view(&self) -> Seq<Seq<char>> {
        self.names@.map_values(|s: String| s@)
    }
}

/// No name occurs twice.
pub open spec fn distinct_names(names: Seq<Seq<char>>) -> bool {
    forall|i: int, j: int| 0 <= i < j < names.len() ==> names[i] != names[j]
}

/// The registry after `name` is registered: unchanged where it is present.
pub open spec fn after_register(names: Seq<Seq<char>>, name: Seq<char>) -> Seq<Seq<char>> {
    if names.contains(name) {
        names
    } else {
        names.push(name)
    }
}

impl TrancheRegistry {
    /// Names are unique.
    pub open spec fn wf(&self) -> bool {
        distinct_names(self@)
    }

    /// No tranche yet.
    pub fn new() -> (r: Self)
        ensures
            r.wf(),
            r@ == Seq::<Seq<char>>::empty(),
    {
        let r = TrancheRegistry { names: Vec::new() };
        assert(r@ =~= Seq::<Seq<char>>::empty());
        r
    }

    /// The identifier of the tranche named `name`, registered now where this
    /// is the first time the name is seen. Registering a name again gives the
    /// same identifier and changes nothing.
    pub fn register(&mut self, name: &str) -> (r: usize)
        requires
            old(self).wf(),
        ensures
            final(self).wf(),
            final(self)@ == after_register(old(self)@, name@),
            r < final(self)@.len(),
            final(self)@[r as int] == name@,
            forall|i: int| 0 <= i < old(self)@.len() && old(self)@[i] == name@ ==> r == i,
            !old(self)@.contains(name@) ==> r == old(self)@.len(),
    {
        let wanted = name.to_owned();
        let mut i: usize = 0;
        while i < self.names.len()
            invariant
                wanted@ == name@,
                self.wf(),
                i <= self@.len(),
                self@.len() == self.names@.len(),
                forall|j: int| 0 <= j < i ==> self@[j] != name@,
            decreases self@.len() - i,
        {
            assert(self@[i as int] == self.names@[i as int]@);
            if self.names[i] == wanted {
                proof {
                    assert forall|k: int| 0 <= k < self@.len() && self@[k] == name@ implies i == k by {
                        if k < i {
                        } else if k > i {
                            assert(self@[i as int] == self@[k]);
                        }
                    }
                }
                return i;
            }
            i = i + 1;
        }
        let ghost before = self@;
        assert(!before.contains(name@));
        self.names.push(wanted);
        assert(self@ =~= before.push(name@));
        i
    }
}

/// Registering a name twice gives the same identifier both times, and names
/// that differ never share one.
pub proof fn lemma_register_idempotent(names: Seq<Seq<char>>, a: Seq<char>, b: Seq<char>, i: int, j: int)
    requires
        distinct_names(names),
        0 <= i < names.len(),
        0 <= j < names.len(),
        names[i] == a,
        names[j] == b,
    ensures
        after_register(names, a) == names,
        a == b <==> i == j,
{
    assert(names.contains(a));
}

/// Proof that a shared hold was granted on a lock of the tranche it names.
pub struct PgDynamicLwLockShareGuard {
    tranche: usize,
}

impl PgDynamicLwLockShareGuard {
    /// The tranche of the lock that granted the hold.
    pub closed spec fn tranche(&self) -> usize {
        self.tranche
    }
}

/// Proof that the exclusive hold was granted on a lock of the tranche it names.
pub struct PgDynamicLwLockExclusiveGuard {
    tranche: usize,
}

impl PgDynamicLwLockExclusiveGuard {
    /// The tranche of the lock that granted the hold.
    pub closed spec fn tranche(&self) -> usize {
        self.tranche
    }
}

/// A value guarded by a named reader/writer lock.
pub struct PgDynamicLwLock<T> {
    name: String,
    tranche: Option<usize>,
    shared: usize,
    exclusive: bool,
    data: Option<T>,
}

impl<T> SyncMut for PgDynamicLwLock<T> {}

impl<T> PgDynamicLwLock<T> {
    /// The lock's name, which names its tranche.
    pub closed spec fn name(&self) -> Seq<char> {
        self.name@
    }

    /// The tranche, once registered.
    pub closed spec fn tranche(&self) -> Option<usize> {
        self.tranche
    }

    /// Number of shared holders.
    pub closed spec fn shared_holders(&self) -> nat {
        self.shared as nat
    }

    /// Whether the exclusive hold is taken.
    pub closed spec fn exclusive_held(&self) -> bool {
        self.exclusive
    }

    /// The guarded value.
    pub closed spec fn value(&self) -> T {
        self.data->0
    }

    /// Shared and exclusive holds never coexist, and the value is in place.
    pub closed spec fn wf(&self) -> bool {
        &&& self.exclusive ==> self.shared == 0
        &&& self.data is Some
    }

    /// A free lock named `name`, guarding `data`; its tranche is registered
    /// on first use.
    pub fn new(name: &str, data: T) -> (r: Self)
        ensures
            r.wf(),
            r.name() == name@,
            r.tranche() == None::<usize>,
            r.shared_holders() == 0,
            !r.exclusive_held(),
            r.value() == data,
    {
        PgDynamicLwLock { name: name.to_owned(), tranche: None, shared: 0, exclusive: false, data: Some(data) }
    }

    /// The lock's tranche, registered under its name on first use.
    fn register(&mut self, tranches: &mut TrancheRegistry) -> (r: usize)
        requires
            old(tranches).wf(),
        ensures
            final(tranches).wf(),
            final(self).tranche() == Some(r),
            old(self).tranche() is Some ==> r == old(self).tranche()->0 && final(tranches)@ == old(
                tranches,
            )@,
            old(self).tranche() is None ==> final(tranches)@ == after_register(
                old(tranches)@,
                old(self).name(),
            ) && final(tranches)@[r as int] == old(self).name() && r < final(tranches)@.len(),
            final(self).name() == old(self).name(),
            final(self).shared_holders() == old(self).shared_holders(),
            final(self).exclusive_held() == old(self).exclusive_held(),
            final(self).value() == old(self).value(),
            final(self).wf() == old(self).wf(),
    {
        match self.tranche {
            Some(t) => t,
            None => {
                let t = tranches.register(self.name.as_str());
                self.tranche = Some(t);
                t
            },
        }
    }

    /// Takes a shared hold, where no exclusive hold is taken. `None` means
    /// that the caller must wait and ask again; the holds are then unchanged.
    fn acquire_shared(&mut self, tranches: &mut TrancheRegistry) -> (r: Option<PgDynamicLwLockShareGuard>)
        requires
            old(self).wf(),
            old(tranches).wf(),
        ensures
            final(self).wf(),
            final(tranches).wf(),
            final(self).tranche() is Some,
            final(self).name() == old(self).name(),
            final(self).value() == old(self).value(),
            final(self).exclusive_held() == old(self).exclusive_held(),
            r is Some <==> !old(self).exclusive_held() && old(self).shared_holders() < usize::MAX,
            r is Some ==> final(self).shared_holders() == old(self).shared_holders() + 1,
            r is Some ==> r->0.tranche() == final(self).tranche()->0,
            old(self).tranche() is Some ==> final(self).tranche() == old(self).tranche() && final(tranches)@ == old(tranches)@,
            old(self).tranche() is None ==> final(tranches)@ == after_register(old(tranches)@, old(self).name())
                && final(tranches)@[final(self).tranche()->0 as int] == old(self).name() && final(self).tranche()->0 < final(tranches)@.len(),
            r is None ==> final(self).shared_holders() == old(self).shared_holders(),
    {
        let t = self.register(tranches);
        if self.exclusive || self.shared == usize::MAX {
            return None;
        }
        self.shared = self.shared + 1;
        Some(PgDynamicLwLockShareGuard { tranche: t })
    }

    /// Takes the exclusive hold, where no hold of either kind is taken.
    /// `None` means that the caller must wait and ask again; the holds are
    /// then unchanged.
    fn acquire_exclusive(&mut self, tranches: &mut TrancheRegistry) -> (r: Option<PgDynamicLwLockExclusiveGuard>)
        requires
            old(self).wf(),
            old(tranches).wf(),
        ensures
            final(self).wf(),
            final(tranches).wf(),
            final(self).tranche() is Some,
            final(self).name() == old(self).name(),
            final(self).value() == old(self).value(),
            final(self).shared_holders() == old(self).shared_holders(),
            r is Some <==> !old(self).exclusive_held() && old(self).shared_holders() == 0,
            final(self).exclusive_held() == (old(self).exclusive_held() || r is Some),
            r is Some ==> r->0.tranche() == final(self).tranche()->0,
            old(self).tranche() is Some ==> final(self).tranche() == old(self).tranche() && final(tranches)@ == old(tranches)@,
            old(self).tranche() is None ==> final(tranches)@ == after_register(old(tranches)@, old(self).name())
                && final(tranches)@[final(self).tranche()->0 as int] == old(self).name() && final(self).tranche()->0 < final(tranches)@.len(),
    {
        let t = self.register(tranches);
        if self.exclusive || self.shared > 0 {
            return None;
        }
        self.exclusive = true;
        Some(PgDynamicLwLockExclusiveGuard { tranche: t })
    }

    /// Read access under a shared hold.
    fn read(&self, guard: &PgDynamicLwLockShareGuard) -> (r: &T)
        requires
            self.wf(),
            self.tranche() == Some(guard.tranche()),
            self.shared_holders() > 0,
        ensures
            *r == self.value(),
    {
        self.data.as_ref().unwrap()
    }

    /// Gives a shared hold back.
    fn release_shared(&mut self, guard: PgDynamicLwLockShareGuard)
        requires
            old(self).wf(),
            old(self).tranche() == Some(guard.tranche()),
            old(self).shared_holders() > 0,
        ensures
            final(self).wf(),
            final(self).shared_holders() == old(self).shared_holders() - 1,
            final(self).exclusive_held() == old(self).exclusive_held(),
            final(self).name() == old(self).name(),
            final(self).tranche() == old(self).tranche(),
            final(self).value() == old(self).value(),
    {
        self.shared = self.shared - 1;
    }

    /// Gives the exclusive hold back.
    fn release_exclusive(&mut self, guard: PgDynamicLwLockExclusiveGuard)
        requires
            old(self).wf(),
            old(self).tranche() == Some(guard.tranche()),
            old(self).exclusive_held(),
        ensures
            final(self).wf(),
            !final(self).exclusive_held(),
            final(self).shared_holders() == old(self).shared_holders(),
            final(self).name() == old(self).name(),
            final(self).tranche() == old(self).tranche(),
            final(self).value() == old(self).value(),
    {
        self.exclusive = false;
    }
    /// Runs `f` on the value under a shared hold, which is given back before
    /// this returns, whatever `f` computed. `None` means that an exclusive
    /// hold is taken: the caller must wait and ask again, and `f` did not run.
    /// The holds are the same afterwards as before.
    pub fn share<R, F: FnOnce(&T) -> R>(&mut self, tranches: &mut TrancheRegistry, f: F) -> (r: Option<R>)
        requires
            old(self).wf(),
            old(tranches).wf(),
            f.requires((&old(self).value(),)),
        ensures
            final(self).wf(),
            final(tranches).wf(),
            final(self).tranche() is Some,
            final(self).name() == old(self).name(),
            final(self).value() == old(self).value(),
            final(self).exclusive_held() == old(self).exclusive_held(),
            final(self).shared_holders() == old(self).shared_holders(),
            r is Some <==> !old(self).exclusive_held() && old(self).shared_holders() < usize::MAX,
            r is Some ==> f.ensures((&old(self).value(),), r->0),
            old(self).tranche() is Some ==> final(self).tranche() == old(self).tranche() && final(tranches)@ == old(tranches)@,
            old(self).tranche() is None ==> final(tranches)@ == after_register(old(tranches)@, old(self).name())
                && final(tranches)@[final(self).tranche()->0 as int] == old(self).name() && final(self).tranche()->0 < final(tranches)@.len(),
    {
        let guard = match self.acquire_shared(tranches) {
            Some(g) => g,
            None => {
                return None;
            },
        };
        let r = f(self.read(&guard));
        self.release_shared(guard);
        Some(r)
    }

    /// Runs `f` on the value under the exclusive hold; `f` hands back the new
    /// value with its result. The hold is given back before this returns.
    /// `None` means that some hold is taken: the caller must wait and ask
    /// again, `f` did not run, and the value is unchanged. The holds are the
    /// same afterwards as before.
    pub fn exclusive<R, F: FnOnce(T) -> (T, R)>(&mut self, tranches: &mut TrancheRegistry, f: F) -> (r: Option<R>)
        requires
            old(self).wf(),
            old(tranches).wf(),
            f.requires((old(self).value(),)),
        ensures
            final(self).wf(),
            final(tranches).wf(),
            final(self).tranche() is Some,
            final(self).name() == old(self).name(),
            final(self).exclusive_held() == old(self).exclusive_held(),
            final(self).shared_holders() == old(self).shared_holders(),
            r is Some <==> !old(self).exclusive_held() && old(self).shared_holders() == 0,
            r is Some ==> f.ensures((old(self).value(),), (final(self).value(), r->0)),
            r is None ==> final(self).value() == old(self).value(),
            old(self).tranche() is Some ==> final(self).tranche() == old(self).tranche() && final(tranches)@ == old(tranches)@,
            old(self).tranche() is None ==> final(tranches)@ == after_register(old(tranches)@, old(self).name())
                && final(tranches)@[final(self).tranche()->0 as int] == old(self).name() && final(self).tranche()->0 < final(tranches)@.len(),
    {
        let guard = match self.acquire_exclusive(tranches) {
            Some(g) => g,
            None => {
                return None;
            },
        };
        let mut slot: Option<T> = None;
        std::mem::swap(&mut self.data, &mut slot);
        let (value, r) = f(slot.unwrap());
        self.data = Some(value);
        self.release_exclusive(guard);
        Some(r)
    }
}

} // verus!
