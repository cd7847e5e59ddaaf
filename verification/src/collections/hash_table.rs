use crate::collections::DynArray;
use crate::hashing::{HashMethod, Hashable};
use vstd::prelude::*;
use crate::utils::bytes_equal;
use vstd::std_specs::cmp::PartialEqSpec;
use vstd::string::StringSliceAdditionalSpecFns;

verus! {

/// A key with its value.
#[derive(Debug, Clone)]
pub struct Entry<K, V> {
    pub key: K,
    pub value: V,
}

/// One slot of the table: empty, holding an entry, or a tombstone left by a deletion.
#[derive(Debug, Clone)]
pub struct Bucket<K, V> {
    tombstone: bool,
    pub entry: Option<Entry<K, V>>,
}

impl<K, V> Bucket<K, V> {
    /// The slot was emptied by a deletion.
    pub closed spec fn is_tombstone(&self) -> bool {
        self.tombstone
    }

    /// The entry held in the slot.
    pub closed spec fn spec_entry(&self) -> Option<Entry<K, V>> {
        self.entry
    }

    /// The slot has never held an entry since the table was last rebuilt: a probe stops here.
    pub open spec fn is_free(&self) -> bool {
        !self.is_tombstone() && self.spec_entry() is None
    }

    fn empty() -> (b: Self)
        ensures
            b.is_free(),
    {
        Bucket { tombstone: false, entry: None }
    }
}

/// The slot holds an entry whose key hashes to `h`.
pub open spec fn holds_hash<K: Hashable, V>(b: Bucket<K, V>, h: u32) -> bool {
    b.spec_entry() matches Some(e) && e.key.spec_hash() == h
}

/// The slot a probe for hash `h` starts at, in a table of `cap` slots.
pub open spec fn home(h: u32, cap: nat) -> int {
    (h as int) % (cap as int)
}

/// The slot visited at step `k` of a probe that starts at `start`.
pub open spec fn probe_pos(start: int, k: int, cap: int) -> int {
    if start + k < cap {
        start + k
    } else {
        start + k - cap
    }
}

/// The step at which a probe that starts at `start` visits slot `p`.
pub open spec fn probe_dist(p: int, start: int, cap: int) -> int {
    if p >= start {
        p - start
    } else {
        p + cap - start
    }
}

proof fn lemma_probe(start: int, cap: int)
    requires
        0 <= start < cap,
    ensures
        forall|k: int|
            0 <= k < cap ==> 0 <= #[trigger] probe_pos(start, k, cap) < cap && probe_dist(
                probe_pos(start, k, cap),
                start,
                cap,
            ) == k,
        forall|p: int|
            0 <= p < cap ==> 0 <= #[trigger] probe_dist(p, start, cap) < cap && probe_pos(
                start,
                probe_dist(p, start, cap),
                cap,
            ) == p,
{
}

/// Some slot among the first `n` holds hash `h`.
pub open spec fn prefix_holds<K: Hashable, V>(s: Seq<Bucket<K, V>>, n: int, h: u32) -> bool {
    exists|p: int| 0 <= p < n && p < s.len() && holds_hash(#[trigger] s[p], h)
}

/// The entry that the first `n` slots hold for hash `h`, if any.
pub open spec fn prefix_lookup<K: Hashable, V>(s: Seq<Bucket<K, V>>, n: int, h: u32) -> Option<
    Entry<K, V>,
> {
    if prefix_holds(s, n, h) {
        let p = choose|p: int| 0 <= p < n && p < s.len() && holds_hash(#[trigger] s[p], h);
        s[p].spec_entry()
    } else {
        None
    }
}

/// The number of slots that hold an entry.
pub open spec fn num_entries<K, V>(s: Seq<Bucket<K, V>>) -> nat
    decreases s.len(),
{
    if s.len() == 0 {
        0
    } else {
        num_entries(s.drop_last()) + (if s.last().spec_entry() is Some {
            1nat
        } else {
            0nat
        })
    }
}

spec fn distinct_hashes<K: Hashable, V>(s: Seq<Bucket<K, V>>) -> bool {
    forall|p: int, q: int|
        0 <= p < s.len() && 0 <= q < s.len() && p != q && (#[trigger] s[p]).entry is Some && (
        #[trigger] s[q]).entry is Some ==> s[p].entry->0.key.spec_hash()
            != s[q].entry->0.key.spec_hash()
}

proof fn lemma_prefix_lookup_at<K: Hashable, V>(s: Seq<Bucket<K, V>>, n: int, p: int)
    requires
        distinct_hashes(s),
        0 <= p < n,
        p < s.len(),
        s[p].spec_entry() is Some,
    ensures
        prefix_holds(s, n, s[p].spec_entry()->0.key.spec_hash()),
        prefix_lookup(s, n, s[p].spec_entry()->0.key.spec_hash()) == s[p].spec_entry(),
{
    let h = s[p].spec_entry()->0.key.spec_hash();
    assert(holds_hash(s[p], h));
    let q = choose|q: int| 0 <= q < n && q < s.len() && holds_hash(#[trigger] s[q], h);
    if q != p {
        assert(s[p].entry is Some && s[q].entry is Some);
    }
}

proof fn lemma_num_free_remove<K, V>(s: Seq<Bucket<K, V>>, p: int)
    requires
        0 <= p < s.len(),
        !s[p].is_free(),
    ensures
        num_free(s) < s.len(),
    decreases s.len(),
{
    lemma_num_free_bound(s.drop_last());
    if p < s.len() - 1 {
        lemma_num_free_remove(s.drop_last(), p);
    }
}

proof fn lemma_entries_and_free<K, V>(s: Seq<Bucket<K, V>>)
    ensures
        num_entries(s) + num_free(s) <= s.len(),
    decreases s.len(),
{
    if s.len() > 0 {
        lemma_entries_and_free(s.drop_last());
    }
}

proof fn lemma_num_entries_push<K, V>(s: Seq<Bucket<K, V>>, n: int)
    requires
        0 <= n < s.len(),
    ensures
        num_entries(s.subrange(0, n + 1)) == num_entries(s.subrange(0, n)) + (if s[n].spec_entry() is Some {
            1nat
        } else {
            0nat
        }),
{
    assert(s.subrange(0, n + 1).drop_last() =~= s.subrange(0, n));
}

spec fn self_contains_old<K: Hashable, V>(s: Seq<Bucket<K, V>>, h: u32) -> bool {
    exists|p: int| 0 <= p < s.len() && holds_hash(#[trigger] s[p], h)
}

/// The number of free slots.
pub open spec fn num_free<K, V>(s: Seq<Bucket<K, V>>) -> nat
    decreases s.len(),
{
    if s.len() == 0 {
        0
    } else {
        num_free(s.drop_last()) + (if s.last().is_free() {
            1nat
        } else {
            0nat
        })
    }
}

proof fn lemma_num_free_bound<K, V>(s: Seq<Bucket<K, V>>)
    ensures
        num_free(s) <= s.len(),
    decreases s.len(),
{
    if s.len() > 0 {
        lemma_num_free_bound(s.drop_last());
    }
}

proof fn lemma_num_free_update<K, V>(s: Seq<Bucket<K, V>>, i: int, b: Bucket<K, V>)
    requires
        0 <= i < s.len(),
    ensures
        num_free(s.update(i, b)) + (if s[i].is_free() {
            1int
        } else {
            0int
        }) == num_free(s) + (if b.is_free() {
            1int
        } else {
            0int
        }),
    decreases s.len(),
{
    if i == s.len() - 1 {
        assert(s.update(i, b).drop_last() =~= s.drop_last());
    } else {
        lemma_num_free_update(s.drop_last(), i, b);
        assert(s.update(i, b).drop_last() =~= s.drop_last().update(i, b));
    }
}

proof fn lemma_num_free_all_free<K, V>(s: Seq<Bucket<K, V>>)
    requires
        forall|i: int| 0 <= i < s.len() ==> #[trigger] s[i].is_free(),
    ensures
        num_free(s) == s.len(),
    decreases s.len(),
{
    if s.len() > 0 {
        lemma_num_free_all_free(s.drop_last());
    }
}

proof fn lemma_num_free_exists<K, V>(s: Seq<Bucket<K, V>>)
    requires
        num_free(s) > 0,
    ensures
        exists|i: int| 0 <= i < s.len() && #[trigger] s[i].is_free(),
    decreases s.len(),
{
    if !s.last().is_free() {
        lemma_num_free_exists(s.drop_last());
        let i = choose|i: int| 0 <= i < s.drop_last().len() && #[trigger] s.drop_last()[i].is_free();
        assert(s[i].is_free());
    } else {
        assert(s[s.len() - 1].is_free());
    }
}

/// The entries held in `buckets`, in slot order, leaving out tombstones.
pub open spec fn live_entries<K, V>(buckets: Seq<Bucket<K, V>>) -> Seq<Entry<K, V>>
    decreases buckets.len(),
{
    if buckets.len() == 0 {
        Seq::empty()
    } else {
        let rest = live_entries(buckets.drop_last());
        let b = buckets.last();
        if !b.is_tombstone() && b.spec_entry() is Some {
            rest.push(b.spec_entry()->0)
        } else {
            rest
        }
    }
}

/// An open-addressing hash table with linear probing. Entries are found by the hash of
/// their key: two keys with the same hash share one slot.
pub struct HashTable<K, V> {
    data: Vec<Bucket<K, V>>,
    count: usize,
}

/// The maximal load of the table: it grows before `count + 1` would exceed three
/// quarters of its capacity.
pub open spec fn exceeds_max_load(count: nat, capacity: nat) -> bool {
    4 * (count + 1) > 3 * capacity
}

impl<K: Hashable + PartialEq, V> HashTable<K, V> {
    /// The slots of the table.
    pub closed spec fn buckets(&self) -> Seq<Bucket<K, V>> {
        self.data@
    }

    /// The number of slots.
    pub open spec fn spec_capacity(&self) -> nat {
        self.buckets().len()
    }

    /// The number of keys inserted since the table was last rebuilt (deletions leave
    /// tombstones and do not lower it).
    pub closed spec fn spec_count(&self) -> usize {
        self.count
    }

    /// Some slot holds an entry whose key hashes to `h`.
    pub open spec fn contains_hash(&self, h: u32) -> bool {
        exists|p: int| 0 <= p < self.spec_capacity() && holds_hash(#[trigger] self.buckets()[p], h)
    }

    /// The entry whose key hashes to `h`, if there is one.
    pub open spec fn lookup(&self, h: u32) -> Option<Entry<K, V>> {
        if self.contains_hash(h) {
            let p = choose|p: int|
                0 <= p < self.spec_capacity() && holds_hash(#[trigger] self.buckets()[p], h);
            self.buckets()[p].spec_entry()
        } else {
            None
        }
    }

    /// On the probe path for `h`, a tombstone comes before the first free slot.
    pub open spec fn tombstone_before_free(&self, h: u32) -> bool {
        let s = self.buckets();
        let cap = self.spec_capacity() as int;
        let start = home(h, self.spec_capacity());
        exists|j: int, k: int|
            0 <= j < k < cap && (#[trigger] s[probe_pos(start, k, cap)]).is_free() && (forall|m: int|
                0 <= m < k ==> !(#[trigger] s[probe_pos(start, m, cap)]).is_free()) && (
            #[trigger] s[probe_pos(start, j, cap)]).is_tombstone()
    }

    /// A probe for `h` ends: some slot is free, or some slot holds the hash.
    pub open spec fn can_probe(&self, h: u32) -> bool {
        self.spec_capacity() > 0 && (self.contains_hash(h) || exists|p: int|
            0 <= p < self.spec_capacity() && #[trigger] self.buckets()[p].is_free())
    }

    /// The table's invariant.
    pub closed spec fn wf(&self) -> bool {
        let s = self.data@;
        let cap = s.len() as int;
        &&& forall|p: int| 0 <= p < cap && #[trigger] s[p].tombstone ==> s[p].entry is None
        &&& distinct_hashes(s)
        &&& forall|p: int, k: int|
            0 <= p < cap && (#[trigger] s[p]).entry is Some && 0 <= k < probe_dist(
                p,
                home(s[p].entry->0.key.spec_hash(), cap as nat),
                cap,
            ) ==> !(#[trigger] s[probe_pos(
                home(s[p].entry->0.key.spec_hash(), cap as nat),
                k,
                cap,
            )]).is_free()
        &&& self.count + num_free(s) == cap
        &&& cap == 0 || self.count < cap
    }

    /// In a table with slots, every probe ends: some slot is free.
    proof fn lemma_can_probe(&self, h: u32)
        requires
            self.wf(),
            self.spec_capacity() > 0,
        ensures
            self.can_probe(h),
    {
        lemma_num_free_exists(self.data@);
        let q = choose|q: int| 0 <= q < self.data@.len() && #[trigger] self.data@[q].is_free();
        assert(self.buckets()[q].is_free());
    }

    /// Finds the slot for hash `hash`: the slot that holds an entry with this hash, or else
    /// the first tombstone passed before the first free slot, or that free slot.
    fn find_bucket(&self, hash: u32) -> (idx: usize)
        requires
            self.wf(),
            self.can_probe(hash),
        ensures
            idx < self.spec_capacity(),
            self.contains_hash(hash) ==> holds_hash(self.buckets()[idx as int], hash),
            !self.contains_hash(hash) ==> self.buckets()[idx as int].spec_entry() is None && (
            forall|k: int|
                0 <= k < probe_dist(
                    idx as int,
                    home(hash, self.spec_capacity()),
                    self.spec_capacity() as int,
                ) ==> !(#[trigger] self.buckets()[probe_pos(
                    home(hash, self.spec_capacity()),
                    k,
                    self.spec_capacity() as int,
                )]).is_free()),
            !self.contains_hash(hash) ==> (self.buckets()[idx as int].is_free()
                <==> !self.tombstone_before_free(hash)),
            !self.contains_hash(hash) ==> forall|k: int|
                0 <= k < probe_dist(
                    idx as int,
                    home(hash, self.spec_capacity()),
                    self.spec_capacity() as int,
                ) ==> !(#[trigger] self.buckets()[probe_pos(
                    home(hash, self.spec_capacity()),
                    k,
                    self.spec_capacity() as int,
                )]).is_tombstone(),
    {
        let capacity = self.data.len();
        let start = (hash as usize) % capacity;
        let ghost cap = capacity as int;
        let ghost s = self.data@;
        proof {
            lemma_probe(start as int, cap);
        }
        let mut tombstone_index: Option<usize> = None;
        let mut index = start;
        let mut i: usize = 0;
        while i < capacity
            invariant
                capacity == self.data@.len(),
                s == self.data@,
                cap == capacity,
                capacity > 0,
                self.wf(),
                self.can_probe(hash),
                start == home(hash, capacity as nat),
                0 <= start < cap,
                0 <= i <= capacity,
                i < capacity ==> index == probe_pos(start as int, i as int, cap),
                forall|k: int|
                    0 <= k < cap ==> 0 <= #[trigger] probe_pos(start as int, k, cap) < cap
                        && probe_dist(probe_pos(start as int, k, cap), start as int, cap) == k,
                forall|p: int|
                    0 <= p < cap ==> 0 <= #[trigger] probe_dist(p, start as int, cap) < cap
                        && probe_pos(start as int, probe_dist(p, start as int, cap), cap) == p,
                forall|k: int|
                    0 <= k < i ==> !(#[trigger] s[probe_pos(start as int, k, cap)]).is_free()
                        && !holds_hash(s[probe_pos(start as int, k, cap)], hash),
                tombstone_index matches Some(t) ==> t < cap && s[t as int].spec_entry() is None
                    && s[t as int].tombstone && probe_dist(t as int, start as int, cap) < i
                    && forall|k: int|
                    0 <= k < probe_dist(t as int, start as int, cap) ==> !(#[trigger] s[probe_pos(
                        start as int,
                        k,
                        cap,
                    )]).tombstone,
                tombstone_index is None ==> forall|k: int|
                    0 <= k < i ==> !(#[trigger] s[probe_pos(start as int, k, cap)]).tombstone,
            decreases capacity - i,
        {
            let bucket = &self.data[index];
            if !bucket.tombstone {
                match &bucket.entry {
                    Some(entry) => {
                        if entry.key.get_hash() == hash {
                            return index;
                        }
                    },
                    None => {
                        proof {
                            if self.contains_hash(hash) {
                                let p = choose|p: int| 0 <= p < cap && holds_hash(#[trigger] s[p], hash);
                                let d = probe_dist(p, start as int, cap);
                                if d < i {
                                    assert(!holds_hash(s[probe_pos(start as int, d, cap)], hash));
                                } else if d == i {
                                } else {
                                    let hp = s[p].entry->0.key.spec_hash();
                                    assert(home(hp, cap as nat) == start);
                                    assert(!s[probe_pos(home(hp, cap as nat), i as int, cap)].is_free());
                                }
                            }
                        }
                        let r = match tombstone_index {
                            Some(t) => t,
                            None => index,
                        };
                        proof {
                            assert forall|k: int|
                                0 <= k < probe_dist(r as int, start as int, cap) implies !(
                            #[trigger] s[probe_pos(start as int, k, cap)]).is_free() by {}
                            match tombstone_index {
                                Some(t) => {
                                    let j = probe_dist(t as int, start as int, cap);
                                    assert(s[probe_pos(start as int, j, cap)].is_tombstone());
                                    assert(s[probe_pos(start as int, i as int, cap)].is_free());
                                    assert(self.tombstone_before_free(hash));
                                },
                                None => {
                                    if self.tombstone_before_free(hash) {
                                        let (j, k) = choose|j: int, k: int|
                                            0 <= j < k < cap && (#[trigger] s[probe_pos(start as int, k, cap)]).is_free()
                                                && (forall|m: int| 0 <= m < k ==> !(#[trigger] s[probe_pos(start as int, m, cap)]).is_free())
                                                && (#[trigger] s[probe_pos(start as int, j, cap)]).is_tombstone();
                                        if k < i {
                                        } else if k > i {
                                            assert(!s[probe_pos(start as int, i as int, cap)].is_free());
                                        } else {
                                            assert(!s[probe_pos(start as int, j, cap)].tombstone);
                                        }
                                    }
                                },
                            }
                        }
                        return r;
                    },
                }
            } else if tombstone_index.is_none() {
                tombstone_index = Some(index);
            }
            index = if index + 1 == capacity {
                0
            } else {
                index + 1
            };
            i = i + 1;
        }
        proof {
            assert forall|q: int| 0 <= q < cap implies !(#[trigger] s[q]).is_free() && !holds_hash(
                s[q],
                hash,
            ) by {
                let d = probe_dist(q, start as int, cap);
                assert(s[probe_pos(start as int, d, cap)] == s[q]);
            }
            assert(false);
        }
        0
    }

    proof fn lemma_lookup_at(&self, p: int)
        requires
            self.wf(),
            0 <= p < self.spec_capacity(),
            self.buckets()[p].spec_entry() is Some,
        ensures
            self.contains_hash(self.buckets()[p].spec_entry()->0.key.spec_hash()),
            self.lookup(self.buckets()[p].spec_entry()->0.key.spec_hash())
                == self.buckets()[p].spec_entry(),
    {
        let h = self.buckets()[p].spec_entry()->0.key.spec_hash();
        assert(holds_hash(self.buckets()[p], h));
        let q = choose|q: int| 0 <= q < self.spec_capacity() && holds_hash(#[trigger] self.buckets()[q], h);
        if q != p {
            assert(self.data@[p].entry is Some && self.data@[q].entry is Some);
        }
    }

    /// Writes `entry` into slot `idx`, which either holds the entry with the same hash or is
    /// an empty slot that a probe for that hash reaches.
    fn insert_at(&mut self, idx: usize, entry: Entry<K, V>) -> (was_free: bool)
        requires
            old(self).wf(),
            idx < old(self).spec_capacity(),
            old(self).buckets()[idx as int].is_free() ==> old(self).spec_count() + 1 < old(
                self,
            ).spec_capacity(),
            old(self).contains_hash(entry.key.spec_hash()) ==> holds_hash(
                old(self).buckets()[idx as int],
                entry.key.spec_hash(),
            ),
            !old(self).contains_hash(entry.key.spec_hash()) ==> old(self).buckets()[idx as int].spec_entry() is None
                && (forall|k: int|
                0 <= k < probe_dist(
                    idx as int,
                    home(entry.key.spec_hash(), old(self).spec_capacity()),
                    old(self).spec_capacity() as int,
                ) ==> !(#[trigger] old(self).buckets()[probe_pos(
                    home(entry.key.spec_hash(), old(self).spec_capacity()),
                    k,
                    old(self).spec_capacity() as int,
                )]).is_free()),
        ensures
            final(self).wf(),
            was_free == old(self).buckets()[idx as int].is_free(),
            was_free ==> !old(self).contains_hash(entry.key.spec_hash()),
            final(self).spec_count() == old(self).spec_count() + (if was_free {
                1int
            } else {
                0int
            }),
            final(self).spec_capacity() == old(self).spec_capacity(),
            num_free(final(self).buckets()) + (if was_free {
                1int
            } else {
                0int
            }) == num_free(old(self).buckets()),
            final(self).buckets()[idx as int].spec_entry() == Some(entry),
            !final(self).buckets()[idx as int].is_tombstone(),
            forall|p: int|
                0 <= p < old(self).spec_capacity() && p != idx ==> #[trigger] final(self).buckets()[p]
                    == old(self).buckets()[p],
            final(self).lookup(entry.key.spec_hash()) == Some(entry),
            forall|h2: u32|
                h2 != entry.key.spec_hash() ==> #[trigger] final(self).lookup(h2) == old(
                    self,
                ).lookup(h2),
    {
        let ghost h = entry.key.spec_hash();
        let ghost s = self.data@;
        let ghost cap = s.len() as int;
        let was_free = !self.data[idx].tombstone && self.data[idx].entry.is_none();
        let len = self.data.len();
        proof {
            lemma_num_free_bound(s);
            if was_free {
                lemma_num_free_update(s, idx as int, Bucket { tombstone: false, entry: Some(entry) });
            } else {
                lemma_num_free_update(s, idx as int, Bucket { tombstone: false, entry: Some(entry) });
            }
        }
        let new_count = if was_free {
            self.count + 1
        } else {
            self.count
        };
        self.data.set(idx, Bucket { tombstone: false, entry: Some(entry) });
        self.count = new_count;
        let ghost t = self.data@;
        proof {
            assert(t == s.update(idx as int, Bucket { tombstone: false, entry: Some(entry) }));
            // Distinct hashes.
            assert forall|p: int, q: int|
                0 <= p < cap && 0 <= q < cap && p != q && (#[trigger] t[p]).entry is Some && (
                #[trigger] t[q]).entry is Some implies t[p].entry->0.key.spec_hash()
                != t[q].entry->0.key.spec_hash() by {
                if p == idx {
                    if s[q].entry->0.key.spec_hash() == h {
                        assert(holds_hash(s[q], h));
                    }
                } else if q == idx {
                    if s[p].entry->0.key.spec_hash() == h {
                        assert(holds_hash(s[p], h));
                    }
                } else {
                    assert(s[p] == t[p] && s[q] == t[q]);
                }
            }
            // Probe chains.
            assert forall|p: int, k: int|
                0 <= p < cap && (#[trigger] t[p]).entry is Some && 0 <= k < probe_dist(
                    p,
                    home(t[p].entry->0.key.spec_hash(), cap as nat),
                    cap,
                ) implies !(#[trigger] t[probe_pos(
                home(t[p].entry->0.key.spec_hash(), cap as nat),
                k,
                cap,
            )]).is_free() by {
                let hp = t[p].entry->0.key.spec_hash();
                let q = probe_pos(home(hp, cap as nat), k, cap);
                if p == idx {
                    if self_contains_old(s, h) {
                        assert(s[p].entry is Some);
                        assert(s[p].entry->0.key.spec_hash() == h);
                        assert(!s[probe_pos(home(s[p].entry->0.key.spec_hash(), cap as nat), k, cap)].is_free());
                    } else {
                        assert(!s[probe_pos(home(h, cap as nat), k, cap)].is_free());
                    }
                } else {
                    assert(t[p] == s[p]);
                    assert(!s[probe_pos(home(s[p].entry->0.key.spec_hash(), cap as nat), k, cap)].is_free());
                }
                if q != idx {
                    assert(t[q] == s[q]);
                }
            }
            assert(forall|p: int| 0 <= p < cap && #[trigger] t[p].tombstone ==> t[p].entry is None);
            assert(self.wf());
            if was_free {
                if old(self).contains_hash(h) {
                    assert(holds_hash(s[idx as int], h));
                }
            }
            self.lemma_lookup_at(idx as int);
            assert forall|h2: u32| h2 != h implies #[trigger] self.lookup(h2) == old(self).lookup(h2) by {
                if old(self).contains_hash(h2) {
                    let p = choose|p: int| 0 <= p < cap && holds_hash(#[trigger] s[p], h2);
                    old(self).lemma_lookup_at(p);
                    if p == idx {
                        assert(false);
                    }
                    assert(t[p] == s[p]);
                    self.lemma_lookup_at(p);
                } else if self.contains_hash(h2) {
                    let p = choose|p: int| 0 <= p < cap && holds_hash(#[trigger] t[p], h2);
                    if p != idx {
                        assert(t[p] == s[p]);
                        assert(holds_hash(s[p], h2));
                    }
                }
            }
        }
        was_free
    }

    /// Rebuilds the table with the next growth capacity: every entry is inserted again, in
    /// slot order, tombstones are dropped, and the count becomes the number of entries.
    fn grow(&mut self)
        requires
            old(self).wf(),
            old(self).spec_capacity() <= usize::MAX / 2,
        ensures
            final(self).wf(),
            final(self).spec_capacity() == crate::collections::dynarray::spec_next_growth_capacity(
                old(self).spec_capacity() as usize,
            ),
            final(self).spec_count() == num_entries(old(self).buckets()),
            final(self).spec_count() + num_free(final(self).buckets()) == final(self).spec_capacity(),
            forall|p: int|
                0 <= p < final(self).spec_capacity() ==> !(#[trigger] final(self).buckets()[p]).is_tombstone(),
            forall|h: u32| #[trigger] final(self).contains_hash(h) == old(self).contains_hash(h),
            forall|h: u32| #[trigger] final(self).lookup(h) == old(self).lookup(h),
    {
        let ghost old_s = self.data@;
        proof {
            lemma_num_free_bound(old_s);
        }
        let capacity = self.data.len();
        let new_capacity = if capacity < 16 {
            16
        } else {
            capacity * 2
        };
        let n = capacity;
        let mut fresh: Vec<Bucket<K, V>> = Vec::new();
        let mut j: usize = 0;
        while j < new_capacity
            invariant
                0 <= j <= new_capacity,
                fresh@.len() == j,
                forall|p: int| 0 <= p < j ==> (#[trigger] fresh@[p]).is_free(),
            decreases new_capacity - j,
        {
            fresh.push(Bucket::empty());
            j = j + 1;
        }
        std::mem::swap(&mut self.data, &mut fresh);
        let mut previous = fresh;
        self.count = 0;
        proof {
            lemma_num_free_all_free(self.data@);
            assert(distinct_hashes(old_s));
        }
        let mut i: usize = 0;
        while i < n
            invariant
                0 <= i <= n,
                n <= capacity,
                capacity == old_s.len(),
                capacity < new_capacity,
                new_capacity == self.data@.len(),
                distinct_hashes(old_s),
                previous@.len() == old_s.len(),
                forall|p: int| i <= p < old_s.len() ==> #[trigger] previous@[p] == old_s[p],
                self.wf(),
                self.count + num_free(self.data@) == new_capacity,
                self.count == num_entries(old_s.subrange(0, i as int)),
                self.count <= i,
                forall|p: int| 0 <= p < new_capacity ==> !(#[trigger] self.data@[p]).tombstone,
                forall|h: u32| #[trigger] self.contains_hash(h) == prefix_holds(old_s, i as int, h),
                forall|h: u32| #[trigger] self.lookup(h) == prefix_lookup(old_s, i as int, h),
            decreases n - i,
        {
            let taken = previous[i].entry.take();
            proof {
                lemma_num_entries_push(old_s, i as int);
                assert(old_s[i as int] == previous@[i as int] || true);
            }
            match taken {
                Some(entry) => {
                    let ghost h = entry.key.spec_hash();
                    proof {
                        assert(old_s[i as int].spec_entry() == Some(entry));
                        if self.contains_hash(h) {
                            let p = choose|p: int|
                                0 <= p < i && p < old_s.len() && holds_hash(#[trigger] old_s[p], h);
                            assert(old_s[p].entry is Some && old_s[i as int].entry is Some);
                            assert(false);
                        }
                        assert(num_free(self.data@) > 0);
                        lemma_num_free_exists(self.data@);
                        let q = choose|q: int| 0 <= q < self.data@.len() && #[trigger] self.data@[q].is_free();
                        assert(self.buckets()[q].is_free());
                        assert(self.can_probe(h));
                    }
                    let idx = self.find_bucket(entry.key.get_hash());
                    let ghost before = *self;
                    self.insert_at(idx, entry);
                    proof {
                        lemma_prefix_lookup_at(old_s, i + 1, i as int);
                        assert forall|h2: u32| #[trigger] self.contains_hash(h2) == prefix_holds(
                            old_s,
                            i + 1,
                            h2,
                        ) by {
                            if h2 == h {
                                self.lemma_lookup_at(idx as int);
                            } else {
                                if self.contains_hash(h2) {
                                    let p = choose|p: int|
                                        0 <= p < new_capacity && holds_hash(#[trigger] self.data@[p], h2);
                                    if p != idx {
                                        assert(holds_hash(before.data@[p], h2));
                                    }
                                }
                                if before.contains_hash(h2) {
                                    let p = choose|p: int|
                                        0 <= p < new_capacity && holds_hash(#[trigger] before.data@[p], h2);
                                    if p == idx {
                                        assert(before.data@[p].entry is None);
                                    }
                                    assert(holds_hash(self.data@[p], h2));
                                }
                                assert(prefix_holds(old_s, i + 1, h2) == prefix_holds(old_s, i as int, h2)) by {
                                    if prefix_holds(old_s, i + 1, h2) {
                                        let p = choose|p: int|
                                            0 <= p < i + 1 && p < old_s.len() && holds_hash(#[trigger] old_s[p], h2);
                                        assert(p != i);
                                    }
                                }
                            }
                        }
                        assert forall|h2: u32| #[trigger] self.lookup(h2) == prefix_lookup(
                            old_s,
                            i + 1,
                            h2,
                        ) by {
                            if h2 != h {
                                assert(self.lookup(h2) == before.lookup(h2));
                                if prefix_holds(old_s, i + 1, h2) {
                                    let p = choose|p: int|
                                        0 <= p < i + 1 && p < old_s.len() && holds_hash(#[trigger] old_s[p], h2);
                                    assert(p != i);
                                    lemma_prefix_lookup_at(old_s, i + 1, p);
                                    lemma_prefix_lookup_at(old_s, i as int, p);
                                } else {
                                    assert(!prefix_holds(old_s, i as int, h2));
                                }
                            }
                        }
                        assert(forall|p: int| 0 <= p < new_capacity ==> !(#[trigger] self.data@[p]).tombstone);
                        assert(before.data@[idx as int].entry is None);
                        assert(before.data@[idx as int].is_free());
                    }
                },
                None => {
                    proof {
                        assert(old_s[i as int].spec_entry() is None);
                        assert forall|h2: u32| #[trigger] prefix_holds(old_s, i + 1, h2) == prefix_holds(
                            old_s,
                            i as int,
                            h2,
                        ) by {
                            if prefix_holds(old_s, i + 1, h2) {
                                let p = choose|p: int|
                                    0 <= p < i + 1 && p < old_s.len() && holds_hash(#[trigger] old_s[p], h2);
                                assert(p != i);
                            }
                        }
                        assert forall|h2: u32| #[trigger] prefix_lookup(old_s, i + 1, h2) == prefix_lookup(
                            old_s,
                            i as int,
                            h2,
                        ) by {
                            if prefix_holds(old_s, i + 1, h2) {
                                let p = choose|p: int|
                                    0 <= p < i + 1 && p < old_s.len() && holds_hash(#[trigger] old_s[p], h2);
                                assert(p != i);
                                lemma_prefix_lookup_at(old_s, i + 1, p);
                                lemma_prefix_lookup_at(old_s, i as int, p);
                            }
                        }
                    }
                },
            }
            i = i + 1;
        }
        proof {
            assert(old_s.subrange(0, capacity as int) =~= old_s);
            assert forall|h: u32| #[trigger] self.contains_hash(h) == old(self).contains_hash(h) by {
                if old(self).contains_hash(h) {
                    let p = choose|p: int| 0 <= p < capacity && holds_hash(#[trigger] old_s[p], h);
                    assert(prefix_holds(old_s, capacity as int, h));
                }
                if prefix_holds(old_s, capacity as int, h) {
                    let p = choose|p: int|
                        0 <= p < capacity && p < old_s.len() && holds_hash(#[trigger] old_s[p], h);
                    assert(old(self).buckets()[p] == old_s[p]);
                }
            }
            assert forall|h: u32| #[trigger] self.lookup(h) == old(self).lookup(h) by {
                if old(self).contains_hash(h) {
                    let p = choose|p: int| 0 <= p < capacity && holds_hash(#[trigger] old_s[p], h);
                    lemma_prefix_lookup_at(old_s, capacity as int, p);
                    old(self).lemma_lookup_at(p);
                }
            }
        }
    }

    /// Inserts `key` with `value`, replacing the entry whose key has the same hash.
    /// Returns `true` when the key was inserted, `false` when an entry with its hash was
    /// already present (and is overwritten). The count goes up only when a slot that had
    /// never been used since the table was last rebuilt is taken.
    pub fn set(&mut self, key: K, value: V) -> (new_key: bool)
        requires
            old(self).wf(),
            exceeds_max_load(old(self).spec_count() as nat, old(self).spec_capacity())
                ==> old(self).spec_capacity() <= usize::MAX / 2,
        ensures
            final(self).wf(),
            final(self).lookup(key.spec_hash()) == Some(Entry { key, value }),
            new_key == !old(self).contains_hash(key.spec_hash()),
            forall|h2: u32|
                h2 != key.spec_hash() ==> #[trigger] final(self).lookup(h2) == old(self).lookup(h2),
            !exceeds_max_load(old(self).spec_count() as nat, old(self).spec_capacity()) ==> {
                &&& final(self).spec_capacity() == old(self).spec_capacity()
                &&& final(self).spec_count() == old(self).spec_count() + (if !old(
                    self,
                ).contains_hash(key.spec_hash()) && !old(self).tombstone_before_free(
                    key.spec_hash(),
                ) {
                    1int
                } else {
                    0int
                })
            },
            exceeds_max_load(old(self).spec_count() as nat, old(self).spec_capacity()) ==> {
                &&& final(self).spec_capacity()
                    == crate::collections::dynarray::spec_next_growth_capacity(
                    old(self).spec_capacity() as usize,
                )
                &&& final(self).spec_count() == num_entries(old(self).buckets()) + (if new_key {
                    1int
                } else {
                    0int
                })
            },
    {
        let ghost h = key.spec_hash();
        let count = self.count;
        let capacity = self.data.len();
        if (count as u128 + 1) * 4 > (capacity as u128) * 3 {
            assert(exceeds_max_load(old(self).spec_count() as nat, old(self).spec_capacity()));
            self.grow();
            proof {
                lemma_entries_and_free(old(self).buckets());
                assert(self.spec_capacity() > 0);
                assert(self.spec_count() + 1 < self.spec_capacity());
            }
        } else {
            proof {
                assert((count as int + 1) * 4 <= capacity as int * 3);
                assert(self.spec_capacity() > 0);
            }
        }
        let ghost mid = *self;
        proof {
            mid.lemma_can_probe(h);
            assert(mid.spec_count() + 1 < mid.spec_capacity());
        }
        let hash = key.get_hash();
        let idx = self.find_bucket(hash);
        let was_none = self.data[idx].entry.is_none();
        let was_free = self.insert_at(idx, Entry { key, value });
        proof {
            assert(mid.contains_hash(h) == old(self).contains_hash(h));
            if mid.contains_hash(h) {
                assert(holds_hash(mid.buckets()[idx as int], h));
            }
            if exceeds_max_load(old(self).spec_count() as nat, old(self).spec_capacity()) {
                assert(!mid.buckets()[idx as int].is_tombstone());
            }
        }
        was_none
    }

    /// The entry whose key hashes like `key` and equals it.
    pub fn get(&mut self, key: &K) -> (r: Option<&Entry<K, V>>)
        requires
            old(self).wf(),
        ensures
            *final(self) == *old(self),
            old(self).spec_count() == 0 ==> r is None,
            r is Some ==> old(self).lookup(key.spec_hash()) == Some(*r->0),
            K::obeys_eq_spec() ==> (r is Some <==> (old(self).lookup(key.spec_hash()) is Some
                && old(self).lookup(key.spec_hash())->0.key.eq_spec(key))),
    {
        if self.count == 0 {
            proof {
                self.lemma_empty_lookup(key.spec_hash());
            }
            return None;
        }
        proof {
            self.lemma_can_probe(key.spec_hash());
        }
        let idx = self.find_bucket(key.get_hash());
        proof {
            if self.contains_hash(key.spec_hash()) {
                self.lemma_lookup_at(idx as int);
            }
        }
        match &self.data[idx].entry {
            Some(entry) => {
                if entry.key == *key {
                    return Some(entry);
                }
                None
            },
            None => None,
        }
    }

    /// Removes the entry whose key hashes to `hash`, leaving a tombstone in its slot, and
    /// returns it; the count is not lowered. Where no entry has that hash, the table is left
    /// as it was and `None` is returned.
    pub fn delete_by_hash(&mut self, hash: u32) -> (r: Option<Entry<K, V>>)
        requires
            old(self).wf(),
        ensures
            final(self).wf(),
            r == old(self).lookup(hash),
            r is None ==> *final(self) == *old(self),
            final(self).lookup(hash) is None,
            final(self).spec_count() == old(self).spec_count(),
            final(self).spec_capacity() == old(self).spec_capacity(),
            forall|h2: u32| h2 != hash ==> #[trigger] final(self).lookup(h2) == old(self).lookup(h2),
    {
        if self.count == 0 {
            proof {
                self.lemma_empty_lookup(hash);
            }
            return None;
        }
        let ghost s = self.data@;
        let ghost cap = s.len() as int;
        proof {
            self.lemma_can_probe(hash);
        }
        let idx = self.find_bucket(hash);
        proof {
            if self.contains_hash(hash) {
                self.lemma_lookup_at(idx as int);
            }
            lemma_num_free_update(s, idx as int, Bucket { tombstone: true, entry: None });
        }
        if self.data[idx].entry.is_none() {
            // Nothing is stored under this hash: there is nothing to remove.
            return None;
        }
        let entry = self.data[idx].entry.take();
        self.data.set(idx, Bucket { tombstone: true, entry: None });
        let ghost t = self.data@;
        proof {
            assert(t == s.update(idx as int, Bucket { tombstone: true, entry: None }));
            assert(distinct_hashes(t)) by {
                assert forall|p: int, q: int|
                    0 <= p < cap && 0 <= q < cap && p != q && (#[trigger] t[p]).entry is Some && (
                    #[trigger] t[q]).entry is Some implies t[p].entry->0.key.spec_hash()
                    != t[q].entry->0.key.spec_hash() by {
                    assert(t[p] == s[p] && t[q] == s[q]);
                }
            }
            assert forall|p: int, k: int|
                0 <= p < cap && (#[trigger] t[p]).entry is Some && 0 <= k < probe_dist(
                    p,
                    home(t[p].entry->0.key.spec_hash(), cap as nat),
                    cap,
                ) implies !(#[trigger] t[probe_pos(
                home(t[p].entry->0.key.spec_hash(), cap as nat),
                k,
                cap,
            )]).is_free() by {
                assert(t[p] == s[p]);
                let q = probe_pos(home(s[p].entry->0.key.spec_hash(), cap as nat), k, cap);
                assert(!s[q].is_free());
                if q != idx {
                    assert(t[q] == s[q]);
                }
            }
            assert(self.wf());
            assert(!self.contains_hash(hash)) by {
                if self.contains_hash(hash) {
                    let p = choose|p: int| 0 <= p < cap && holds_hash(#[trigger] t[p], hash);
                    assert(p != idx);
                    assert(holds_hash(s[p], hash));
                    old(self).lemma_lookup_at(p);
                }
            }
            assert forall|h2: u32| h2 != hash implies #[trigger] self.lookup(h2) == old(self).lookup(h2) by {
                if old(self).contains_hash(h2) {
                    let p = choose|p: int| 0 <= p < cap && holds_hash(#[trigger] s[p], h2);
                    old(self).lemma_lookup_at(p);
                    if p == idx {
                        if old(self).contains_hash(hash) {
                        } else {
                            assert(s[idx as int].entry is None);
                        }
                    }
                    assert(t[p] == s[p]);
                    self.lemma_lookup_at(p);
                } else if self.contains_hash(h2) {
                    let p = choose|p: int| 0 <= p < cap && holds_hash(#[trigger] t[p], h2);
                    assert(t[p] == s[p]);
                    assert(holds_hash(s[p], h2));
                }
            }
        }
        entry
    }

    /// Removes the entry whose key hashes like `key`.
    pub fn delete<H: Hashable>(&mut self, key: H) -> (r: Option<Entry<K, V>>)
        requires
            old(self).wf(),
        ensures
            final(self).wf(),
            r == old(self).lookup(key.spec_hash()),
            r is None ==> *final(self) == *old(self),
            final(self).lookup(key.spec_hash()) is None,
            final(self).spec_count() == old(self).spec_count(),
            final(self).spec_capacity() == old(self).spec_capacity(),
            forall|h2: u32|
                h2 != key.spec_hash() ==> #[trigger] final(self).lookup(h2) == old(self).lookup(h2),
    {
        self.delete_by_hash(key.get_hash())
    }

    proof fn lemma_empty_lookup(&self, h: u32)
        requires
            self.wf(),
            self.spec_count() == 0,
        ensures
            self.lookup(h) is None,
            !self.contains_hash(h),
    {
        if self.contains_hash(h) {
            let p = choose|p: int| 0 <= p < self.spec_capacity() && holds_hash(#[trigger] self.buckets()[p], h);
            lemma_num_free_remove(self.data@, p);
        }
    }

    pub fn new() -> (t: Self)
        ensures
            t.wf(),
            t.spec_capacity() == 0,
            t.spec_count() == 0,
    {
        Self { data: Vec::new(), count: 0 }
    }

    pub fn count(&self) -> (n: usize)
        ensures
            n == self.spec_count(),
    {
        self.count
    }

    /// The entries of the table in slot order, leaving out tombstones.
    pub fn entries(&self) -> (r: Vec<&Entry<K, V>>)
        ensures
            r@.len() == live_entries(self.buckets()).len(),
            forall|i: int| 0 <= i < r@.len() ==> *r@[i] == live_entries(self.buckets())[i],
    {
        let mut out: Vec<&Entry<K, V>> = Vec::new();
        let mut i: usize = 0;
        while i < self.data.len()
            invariant
                0 <= i <= self.data@.len(),
                out@.len() == live_entries(self.data@.subrange(0, i as int)).len(),
                forall|k: int|
                    0 <= k < out@.len() ==> *out@[k] == live_entries(
                        self.data@.subrange(0, i as int),
                    )[k],
            decreases self.data@.len() - i,
        {
            let bucket = &self.data[i];
            proof {
                assert(self.data@.subrange(0, i + 1).drop_last() =~= self.data@.subrange(
                    0,
                    i as int,
                ));
            }
            if !bucket.tombstone {
                match &bucket.entry {
                    Some(entry) => out.push(entry),
                    None => {},
                }
            }
            i = i + 1;
        }
        assert(self.data@.subrange(0, self.data@.len() as int) =~= self.data@);
        out
    }
}

impl<V> HashTable<DynArray<u8>, V> {
    /// The entry whose key holds the bytes of `key_name`, found by the hash `H` gives them.
    pub fn get_by_str<H: HashMethod>(&mut self, key_name: &str) -> (r: Option<
        &Entry<DynArray<u8>, V>,
    >)
        requires
            old(self).wf(),
        ensures
            *final(self) == *old(self),
            r is Some ==> old(self).lookup(H::spec_hash(key_name.spec_bytes())) == Some(*r->0),
            r is Some <==> (old(self).lookup(H::spec_hash(key_name.spec_bytes())) is Some
                && old(self).lookup(H::spec_hash(key_name.spec_bytes()))->0.key@
                == key_name.spec_bytes()),
    {
        let ghost h = H::spec_hash(key_name.spec_bytes());
        if self.count == 0 {
            proof {
                self.lemma_empty_lookup(h);
            }
            return None;
        }
        proof {
            self.lemma_can_probe(h);
        }
        let idx = self.find_bucket(H::hash(key_name.as_bytes()));
        proof {
            if self.contains_hash(h) {
                self.lemma_lookup_at(idx as int);
            }
        }
        match &self.data[idx].entry {
            Some(entry) => {
                if bytes_equal(entry.key.as_slice(), key_name.as_bytes()) {
                    return Some(entry);
                }
                None
            },
            None => None,
        }
    }
}

} // verus!
