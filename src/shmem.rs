//! The shared registry: a fixed-capacity map from bounded names to objects
//! carved out of the shared segment, bucketed by the Murmur3 digest of the name.
use crate::carve::{Grant, Publication};
use crate::types::{truncate_to, truncated, utf8_width, lemma_truncated_fits};
use vstd::prelude::*;

verus! {

/// Most bytes that a key or a type tag keeps.
pub const KEY_BYTES: usize = 96;

/// Most entries that the registry holds.
pub const MAX_ATTACHMENTS: usize = 8192;

/// Number of hash buckets.
pub const BUCKETS: usize = 256;

/// Murmur3 (32-bit, seed 0) digest of the UTF-8 bytes of a string.
pub uninterp spec fn murmur3_of(s: Seq<char>) -> u32;

/// Relies on hash32's `Murmur3Hasher`: a fresh hasher fed the key's bytes
/// through `Hasher::write` and read with `Hasher::finish`; the digest depends
/// on those bytes alone.
#[verifier::external_body]
fn key_hash(key: &str) -> (r: u32)
    ensures
        r == murmur3_of(key@),
{
    let mut hasher = hash32::Murmur3Hasher::default();
    hash32::Hasher::write(&mut hasher, key.as_bytes());
    hash32::Hasher::finish(&hasher)
}

/// The bucket that holds the key `k`.
pub open spec fn bucket_of(k: Seq<char>) -> int {
    (murmur3_of(k) % (BUCKETS as u32)) as int
}

/// The key under which a name is stored.
pub open spec fn key_of(name: Seq<char>) -> Seq<char> {
    truncated(name, KEY_BYTES as nat)
}

/// The registry's contents after `name` is inserted: a present key keeps
/// its first entry, and a full registry does not change.
pub open spec fn after_insert(
    m: Map<Seq<char>, (Seq<char>, usize)>,
    name: Seq<char>,
    type_tag: Seq<char>,
    offset: usize,
) -> Map<Seq<char>, (Seq<char>, usize)> {
    let k = key_of(name);
    if m.contains_key(k) || m.len() >= MAX_ATTACHMENTS {
        m
    } else {
        m.insert(k, (truncated(type_tag, KEY_BYTES as nat), offset))
    }
}

/// The offset registered under `name`, if any.
pub open spec fn lookup(m: Map<Seq<char>, (Seq<char>, usize)>, name: Seq<char>) -> Option<usize> {
    if m.contains_key(key_of(name)) {
        Some(m[key_of(name)].1)
    } else {
        None
    }
}

/// Inserting a name that is not yet present into a registry below capacity,
/// then looking it up, gives back what was inserted.
pub proof fn lemma_insert_then_get(
    m: Map<Seq<char>, (Seq<char>, usize)>,
    name: Seq<char>,
    type_tag: Seq<char>,
    offset: usize,
)
    requires
        lookup(m, name) == None::<usize>,
        m.len() < MAX_ATTACHMENTS,
    ensures
        lookup(after_insert(m, name, type_tag, offset), name) == Some(offset),
        after_insert(m, name, type_tag, offset)[key_of(name)].0 == truncated(
            type_tag,
            KEY_BYTES as nat,
        ),
{
}

/// A second insert under a name already present changes nothing: the first
/// entry, and every other, stays as it was.
pub proof fn lemma_second_insert_keeps_first(
    m: Map<Seq<char>, (Seq<char>, usize)>,
    name: Seq<char>,
    first_tag: Seq<char>,
    first: usize,
    second_tag: Seq<char>,
    second: usize,
)
    ensures
        ({
            let once = after_insert(m, name, first_tag, first);
            &&& after_insert(once, name, second_tag, second) == once
            &&& lookup(after_insert(once, name, second_tag, second), name) == lookup(once, name)
        }),
{
}

/// Inserting a new name into a full registry leaves it as it was: the new
/// name is not found, and every name found before is found as before.
pub proof fn lemma_full_registry_unchanged(
    m: Map<Seq<char>, (Seq<char>, usize)>,
    name: Seq<char>,
    type_tag: Seq<char>,
    offset: usize,
    other: Seq<char>,
)
    requires
        m.len() >= MAX_ATTACHMENTS,
        lookup(m, name) == None::<usize>,
    ensures
        lookup(after_insert(m, name, type_tag, offset), name) == None::<usize>,
        lookup(after_insert(m, name, type_tag, offset), other) == lookup(m, other),
{
}

/// Number of entries in the first `n` buckets.
pub open spec fn total_entries(bs: Seq<Vec<Entry>>, n: int) -> nat
    decreases n,
{
    if n <= 0 {
        0
    } else {
        total_entries(bs, n - 1) + bs[n - 1]@.len()
    }
}

proof fn lemma_total_entries_zero(bs: Seq<Vec<Entry>>, n: int)
    requires
        forall|j: int| 0 <= j < n ==> (#[trigger] bs[j])@.len() == 0,
    ensures
        total_entries(bs, n) == 0,
    decreases n,
{
    if n > 0 {
        lemma_total_entries_zero(bs, n - 1);
    }
}

proof fn lemma_total_entries_update(bs: Seq<Vec<Entry>>, b: int, v: Vec<Entry>, n: int)
    requires
        0 <= b < bs.len(),
        n <= bs.len(),
    ensures
        total_entries(bs.update(b, v), n) == if b < n {
            total_entries(bs, n) - bs[b]@.len() + v@.len()
        } else {
            total_entries(bs, n) as int
        },
    decreases n,
{
    if n > 0 {
        lemma_total_entries_update(bs, b, v, n - 1);
        if b < n - 1 {
            assert(total_entries(bs, n - 1) >= bs[b]@.len()) by {
                lemma_total_entries_ge(bs, b, n - 1);
            }
        }
    }
}

proof fn lemma_total_entries_ge(bs: Seq<Vec<Entry>>, b: int, n: int)
    requires
        0 <= b < n,
    ensures
        total_entries(bs, n) >= bs[b]@.len(),
    decreases n,
{
    if b < n - 1 {
        lemma_total_entries_ge(bs, b, n - 1);
    }
}

/// What the registry records of an object: its type tag, and where it lies in
/// the shared segment.
pub struct Entry {
    key: String,
    type_tag: String,
    offset: usize,
}

/// The name-keyed registry of objects that live in the shared segment.
pub struct SharedDictionary {
    buckets: Vec<Vec<Entry>>,
    count: usize,
    contents: Ghost<Map<Seq<char>, (Seq<char>, usize)>>,
}

impl View for SharedDictionary {
    /// Each key, with the type tag and the segment offset recorded under it.
    type V = Map<Seq<char>, (Seq<char>, usize)>;

    closed spec fn view(&self) -> Self::V {
        self.contents@
    }
}

impl SharedDictionary {
    closed spec fn key_at(&self, b: int, i: int) -> Seq<char> {
        self.buckets@[b]@[i].key@
    }

    /// The registry's invariant: every entry sits in its key's bucket and
    /// agrees with the map; every key of the map has an entry; the map is
    /// within capacity and its keys within the byte bound.
    pub closed spec fn wf(&self) -> bool {
        &&& self.buckets@.len() == BUCKETS
        &&& self.contents@.dom().finite()
        &&& self.count == self.contents@.len()
        &&& self.count == total_entries(self.buckets@, BUCKETS as int)
        &&& self.count <= MAX_ATTACHMENTS
        &&& forall|b: int, i: int|
            0 <= b < BUCKETS && 0 <= i < self.buckets@[b]@.len() ==> {
                &&& bucket_of(#[trigger] self.key_at(b, i)) == b
                &&& self.contents@.contains_key(self.key_at(b, i))
                &&& self.contents@[self.key_at(b, i)] == (
                    self.buckets@[b]@[i].type_tag@,
                    self.buckets@[b]@[i].offset,
                )
            }
        &&& forall|k: Seq<char>| #[trigger]
            self.contents@.contains_key(k) ==> {
                &&& utf8_width(k) <= KEY_BYTES
                &&& exists|i: int|
                    0 <= i < self.buckets@[bucket_of(k)]@.len() && #[trigger] self.key_at(
                        bucket_of(k),
                        i,
                    ) == k
            }
    }

    /// An empty registry.
    pub fn new() -> (r: Self)
        ensures
            r.wf(),
            r@ == Map::<Seq<char>, (Seq<char>, usize)>::empty(),
    {
        let mut buckets: Vec<Vec<Entry>> = Vec::new();
        let mut b: usize = 0;
        while b < BUCKETS
            invariant
                b <= BUCKETS,
                buckets@.len() == b,
                forall|j: int| 0 <= j < b ==> (#[trigger] buckets@[j])@.len() == 0,
            decreases BUCKETS - b,
        {
            buckets.push(Vec::new());
            b = b + 1;
        }
        proof {
            lemma_total_entries_zero(buckets@, BUCKETS as int);
        }
        SharedDictionary { buckets, count: 0, contents: Ghost(Map::empty()) }
    }

    /// Number of entries.
    pub fn len(&self) -> (r: usize)
        requires
            self.wf(),
        ensures
            r == self@.len(),
    {
        self.count
    }

    /// Position of `key` in bucket `b`, if it is there.
    fn find(&self, b: usize, key: &String) -> (r: Option<usize>)
        requires
            self.wf(),
            b == bucket_of(key@),
        ensures
            match r {
                Some(i) => i < self.buckets@[b as int]@.len() && self.key_at(b as int, i as int)
                    == key@,
                None => !self@.contains_key(key@),
            },
    {
        let bucket = &self.buckets[b];
        let mut i: usize = 0;
        while i < bucket.len()
            invariant
                bucket == &self.buckets@[b as int],
                i <= bucket@.len(),
                forall|j: int| 0 <= j < i ==> self.key_at(b as int, j) != key@,
            decreases bucket@.len() - i,
        {
            if bucket[i].key == *key {
                return Some(i);
            }
            i = i + 1;
        }
        proof {
            if self@.contains_key(key@) {
                let j = choose|j: int|
                    0 <= j < self.buckets@[bucket_of(key@)]@.len() && #[trigger] self.key_at(
                        bucket_of(key@),
                        j,
                    ) == key@;
                assert(self.key_at(b as int, j) == key@);
            }
        }
        None
    }

    /// Records the object at `offset` under `name`, with `type_tag` for
    /// diagnostics. Both strings are cut to `KEY_BYTES` bytes at a character
    /// boundary. A key that is already present keeps its first entry, and a
    /// full registry is left as it is: the call never fails loudly.
    pub fn insert(&mut self, name: &str, type_tag: &str, offset: usize)
        requires
            old(self).wf(),
        ensures
            final(self).wf(),
            final(self)@ == after_insert(old(self)@, name@, type_tag@, offset),
    {
        let key = truncate_to(name, KEY_BYTES);
        let b: usize = (key_hash(key.as_str()) % (BUCKETS as u32)) as usize;
        if self.count >= MAX_ATTACHMENTS {
            return;
        }
        match self.find(b, &key) {
            Some(_) => {
                return;
            },
            None => {},
        }
        let tag = truncate_to(type_tag, KEY_BYTES);
        let ghost old_self = *self;
        let ghost k = key@;
        let ghost v = (tag@, offset);
        let ghost n = self.buckets@[b as int]@.len();
        let ghost old_buckets = self.buckets@;
        self.buckets[b].push(Entry { key, type_tag: tag, offset });
        proof {
            assert(self.buckets@ =~= old_buckets.update(b as int, self.buckets@[b as int]));
            lemma_total_entries_update(old_buckets, b as int, self.buckets@[b as int], BUCKETS as int);
        }
        self.count = self.count + 1;
        self.contents = Ghost(self.contents@.insert(k, v));
        proof {
            lemma_truncated_fits(name@, KEY_BYTES as nat);
            assert(self.key_at(b as int, n as int) == k);
            assert forall|bb: int, i: int|
                0 <= bb < BUCKETS && 0 <= i < self.buckets@[bb]@.len() implies {
                &&& bucket_of(#[trigger] self.key_at(bb, i)) == bb
                &&& self.contents@.contains_key(self.key_at(bb, i))
                &&& self.contents@[self.key_at(bb, i)] == (
                    self.buckets@[bb]@[i].type_tag@,
                    self.buckets@[bb]@[i].offset,
                )
            } by {
                if bb != b || i < n {
                    assert(self.key_at(bb, i) == old_self.key_at(bb, i));
                }
            }
            assert forall|kk: Seq<char>| #[trigger]
                self.contents@.contains_key(kk) implies {
                &&& utf8_width(kk) <= KEY_BYTES
                &&& exists|i: int|
                    0 <= i < self.buckets@[bucket_of(kk)]@.len() && #[trigger] self.key_at(
                        bucket_of(kk),
                        i,
                    ) == kk
            } by {
                if kk == k {
                    assert(self.key_at(b as int, n as int) == kk);
                } else {
                    assert(old_self.contents@.contains_key(kk));
                    let i = choose|i: int|
                        0 <= i < old_self.buckets@[bucket_of(kk)]@.len()
                            && #[trigger] old_self.key_at(bucket_of(kk), i) == kk;
                    assert(self.key_at(bucket_of(kk), i) == kk);
                }
            }
        }
    }

    /// Offset of the object registered under `name` (cut as `insert` cuts
    /// it), or `None` where nothing is registered under it.
    pub fn get(&self, name: &str) -> (r: Option<usize>)
        requires
            self.wf(),
        ensures
            r == lookup(self@, name@),
    {
        let key = truncate_to(name, KEY_BYTES);
        let b: usize = (key_hash(key.as_str()) % (BUCKETS as u32)) as usize;
        match self.find(b, &key) {
            Some(i) => Some(self.buckets[b][i].offset),
            None => None,
        }
    }

    /// Offset of the object registered under `name`, for a caller that will
    /// mutate it: in the segment a name leads to one place, whatever the
    /// access, so this is the offset that `get` gives. The caller synchronises
    /// writes itself, through the lock that the object carries.
    pub fn get_mut(&self, name: &str) -> (r: Option<usize>)
        requires
            self.wf(),
        ensures
            r == lookup(self@, name@),
    {
        self.get(name)
    }

    /// Type tag recorded under `name`, or `None` where nothing is registered.
    pub fn type_tag(&self, name: &str) -> (r: Option<String>)
        requires
            self.wf(),
        ensures
            match r {
                Some(t) => self@.contains_key(key_of(name@)) && t@ == self@[key_of(name@)].0,
                None => !self@.contains_key(key_of(name@)),
            },
    {
        let key = truncate_to(name, KEY_BYTES);
        let b: usize = (key_hash(key.as_str()) % (BUCKETS as u32)) as usize;
        match self.find(b, &key) {
            Some(i) => Some(self.buckets[b][i].type_tag.clone()),
            None => None,
        }
    }

    /// Every (key, type tag) pair, for diagnostic listing.
    pub fn entries(&self) -> (r: Vec<(String, String)>)
        requires
            self.wf(),
        ensures
            forall|j: int|
                0 <= j < r@.len() ==> self@.contains_key(#[trigger] r@[j].0@) && self@[r@[j].0@].0
                    == r@[j].1@,
            forall|k: Seq<char>| #[trigger] self@.contains_key(k) ==> lists_key(r@, k),
            r@.len() == self@.len(),
    {
        let mut out: Vec<(String, String)> = Vec::new();
        let mut b: usize = 0;
        while b < BUCKETS
            invariant
                self.wf(),
                b <= BUCKETS,
                out@.len() == total_entries(self.buckets@, b as int),
                forall|j: int|
                    0 <= j < out@.len() ==> self@.contains_key(#[trigger] out@[j].0@)
                        && self@[out@[j].0@].0 == out@[j].1@,
                forall|bb: int, i: int|
                    0 <= bb < b && 0 <= i < self.buckets@[bb]@.len() ==> lists_key(
                        out@,
                        #[trigger] self.key_at(bb, i),
                    ),
            decreases BUCKETS - b,
        {
            let bucket = &self.buckets[b];
            let mut i: usize = 0;
            while i < bucket.len()
                invariant
                    self.wf(),
                    b < BUCKETS,
                    bucket == &self.buckets@[b as int],
                    i <= bucket@.len(),
                    out@.len() == total_entries(self.buckets@, b as int) + i,
                    forall|j: int|
                        0 <= j < out@.len() ==> self@.contains_key(#[trigger] out@[j].0@)
                            && self@[out@[j].0@].0 == out@[j].1@,
                    forall|bb: int, ii: int|
                        0 <= bb < b && 0 <= ii < self.buckets@[bb]@.len() ==> lists_key(
                            out@,
                            #[trigger] self.key_at(bb, ii),
                        ),
                    forall|ii: int| 0 <= ii < i ==> lists_key(out@, #[trigger] self.key_at(b as int, ii)),
                decreases bucket@.len() - i,
            {
                let ghost kk = self.key_at(b as int, i as int);
                assert(self@.contains_key(kk));
                let ghost before = out@;
                out.push((bucket[i].key.clone(), bucket[i].type_tag.clone()));
                proof {
                    assert(out@[before.len() as int].0@ == kk);
                    assert forall|k: Seq<char>| lists_key(before, k) implies lists_key(out@, k) by {
                        let j = choose|j: int| 0 <= j < before.len() && before[j].0@ == k;
                        assert(out@[j] == before[j]);
                    }
                }
                i = i + 1;
            }
            b = b + 1;
        }
        proof {
            assert forall|k: Seq<char>| #[trigger] self@.contains_key(k) implies lists_key(out@, k) by {
                let i = choose|i: int|
                    0 <= i < self.buckets@[bucket_of(k)]@.len() && #[trigger] self.key_at(
                        bucket_of(k),
                        i,
                    ) == k;
                assert(self.key_at(bucket_of(k), i) == k);
            }
        }
        out
    }
}

/// The first publication that carries `token`, if any.
pub open spec fn publication_for(ps: Seq<Publication>, token: u64) -> Option<Publication>
    decreases ps.len(),
{
    if ps.len() == 0 {
        None
    } else if ps[0].token == token {
        Some(ps[0])
    } else {
        publication_for(ps.skip(1), token)
    }
}

impl SharedDictionary {
    /// Registers the object carved for `grant` under the name that the first
    /// publication with the grant's token gives; a grant that no publication
    /// names is left unregistered.
    pub fn publish(&mut self, grant: &Grant, publications: &Vec<Publication>)
        requires
            old(self).wf(),
        ensures
            final(self).wf(),
            match publication_for(publications@, grant.token) {
                Some(p) => final(self)@ == after_insert(old(self)@, p.name@, p.type_tag@, grant.offset),
                None => final(self)@ == old(self)@,
            },
    {
        let mut j: usize = 0;
        assert(publications@.skip(0) =~= publications@);
        while j < publications.len()
            invariant
                j <= publications@.len(),
                self.wf(),
                *self == *old(self),
                publication_for(publications@, grant.token) == publication_for(publications@.skip(j as int), grant.token),
            decreases publications@.len() - j,
        {
            assert(publications@.skip(j as int).skip(1) =~= publications@.skip(j + 1));
            if publications[j].token == grant.token {
                assert(publications@.skip(j as int)[0] == publications@[j as int]);
                self.insert(publications[j].name.as_str(), publications[j].type_tag.as_str(), grant.offset);
                return;
            }
            j = j + 1;
        }
        assert(publications@.skip(j as int).len() == 0);
    }
}

/// Whether some pair of `pairs` has the key `k`.
pub open spec fn lists_key(pairs: Seq<(String, String)>, k: Seq<char>) -> bool {
    exists|j: int| 0 <= j < pairs.len() && pairs[j].0@ == k
}

} // verus!
