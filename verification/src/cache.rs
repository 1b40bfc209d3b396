//! Calendar cache: a bounded, time-expiring store mapping a line identifier
//! to previously produced calendar content.
//!
//! An entry carries an absolute expiry instant (insertion time + TTL) and is
//! treated as absent once that instant has been reached, even while it still
//! physically occupies a slot. Inserting at capacity evicts an entry with
//! the earliest expiry. At most one entry exists per key.

use vstd::prelude::*;

verus! {

/// One stored entry: key, content, and absolute expiry time in milliseconds.
pub struct CacheSlot {
    pub key: String,
    pub content: String,
    pub expiry_ms: u64,
}

/// Whether some slot of `s` carries the key `k`.
pub open spec fn seq_has_key(s: Seq<CacheSlot>, k: Seq<char>) -> bool {
    exists|i: int| 0 <= i < s.len() && (#[trigger] s[i]).key@ == k
}

/// The index of the slot of `s` carrying key `k` (unique when keys are unique).
pub open spec fn key_index(s: Seq<CacheSlot>, k: Seq<char>) -> int {
    choose|i: int| 0 <= i < s.len() && (#[trigger] s[i]).key@ == k
}

/// The slot of `s` carrying key `k`.
pub open spec fn slot_for(s: Seq<CacheSlot>, k: Seq<char>) -> CacheSlot {
    s[key_index(s, k)]
}

/// No two slots carry the same key.
pub open spec fn keys_unique(s: Seq<CacheSlot>) -> bool {
    forall|i: int, j: int|
        0 <= i < j < s.len() ==> (#[trigger] s[i]).key@ != (#[trigger] s[j]).key@
}

/// With unique keys, a slot that carries `k` at index `i` is the slot for `k`.
proof fn lemma_slot_at(s: Seq<CacheSlot>, k: Seq<char>, i: int)
    requires
        keys_unique(s),
        0 <= i < s.len(),
        s[i].key@ == k,
    ensures
        seq_has_key(s, k),
        key_index(s, k) == i,
        slot_for(s, k) == s[i],
{
    assert(seq_has_key(s, k));
    let j = key_index(s, k);
    assert(0 <= j < s.len() && s[j].key@ == k);
    if j < i {
        assert(s[j].key@ != s[i].key@);
    } else if i < j {
        assert(s[i].key@ != s[j].key@);
    }
}

/// How removing index `i` acts on keys: uniqueness is preserved, the removed
/// key disappears, every other key keeps its slot.
proof fn lemma_remove_keys(s: Seq<CacheSlot>, i: int)
    requires
        keys_unique(s),
        0 <= i < s.len(),
    ensures
        keys_unique(s.remove(i)),
        !seq_has_key(s.remove(i), s[i].key@),
        forall|k: Seq<char>| #[trigger] seq_has_key(s.remove(i), k) ==> seq_has_key(s, k),
        forall|k: Seq<char>|
            seq_has_key(s, k) && k != s[i].key@ ==> #[trigger] seq_has_key(s.remove(i), k),
        forall|k: Seq<char>|
            #[trigger] seq_has_key(s.remove(i), k) ==> slot_for(s.remove(i), k) == slot_for(s, k),
{
    s.remove_ensures(i);
    let t = s.remove(i);
    assert forall|p: int, q: int| 0 <= p < q < t.len() implies (#[trigger] t[p]).key@ != (
    #[trigger] t[q]).key@ by {
        let p0 = if p < i { p } else { p + 1 };
        let q0 = if q < i { q } else { q + 1 };
        assert(t[p] == s[p0] && t[q] == s[q0]);
    }
    assert forall|k: Seq<char>| #[trigger] seq_has_key(t, k) implies seq_has_key(s, k) by {
        let p = choose|p: int| 0 <= p < t.len() && (#[trigger] t[p]).key@ == k;
        let p0 = if p < i { p } else { p + 1 };
        assert(s[p0].key@ == k);
    }
    assert(!seq_has_key(t, s[i].key@)) by {
        if seq_has_key(t, s[i].key@) {
            let p = choose|p: int| 0 <= p < t.len() && (#[trigger] t[p]).key@ == s[i].key@;
            let p0 = if p < i { p } else { p + 1 };
            assert(s[p0].key@ == s[i].key@);
            if p0 < i {
                assert(s[p0].key@ != s[i].key@);
            } else {
                assert(s[i].key@ != s[p0].key@);
            }
        }
    }
    assert forall|k: Seq<char>| seq_has_key(s, k) && k != s[i].key@ implies #[trigger] seq_has_key(
        t,
        k,
    ) by {
        let p0 = choose|p0: int| 0 <= p0 < s.len() && (#[trigger] s[p0]).key@ == k;
        let p = if p0 < i { p0 } else { p0 - 1 };
        assert(t[p].key@ == k);
    }
    assert forall|k: Seq<char>| #[trigger] seq_has_key(t, k) implies slot_for(t, k) == slot_for(
        s,
        k,
    ) by {
        let p = key_index(t, k);
        assert(0 <= p < t.len() && t[p].key@ == k);
        let p0 = if p < i { p } else { p + 1 };
        assert(t[p] == s[p0]);
        lemma_slot_at(t, k, p);
        lemma_slot_at(s, k, p0);
    }
}

/// How appending a fresh-keyed slot acts on keys: uniqueness is preserved,
/// the new key maps to the new slot, every old key keeps its slot.
proof fn lemma_push_keys(s: Seq<CacheSlot>, x: CacheSlot)
    requires
        keys_unique(s),
        !seq_has_key(s, x.key@),
    ensures
        keys_unique(s.push(x)),
        seq_has_key(s.push(x), x.key@),
        slot_for(s.push(x), x.key@) == x,
        forall|k: Seq<char>|
            k != x.key@ ==> (#[trigger] seq_has_key(s.push(x), k) <==> seq_has_key(s, k)),
        forall|k: Seq<char>|
            k != x.key@ && #[trigger] seq_has_key(s, k) ==> slot_for(s.push(x), k) == slot_for(
                s,
                k,
            ),
{
    let t = s.push(x);
    assert forall|p: int, q: int| 0 <= p < q < t.len() implies (#[trigger] t[p]).key@ != (
    #[trigger] t[q]).key@ by {
        if q == s.len() {
            assert(t[q] == x);
            assert(t[p] == s[p]);
            if t[p].key@ == x.key@ {
                assert(seq_has_key(s, x.key@));
            }
        } else {
            assert(t[p] == s[p] && t[q] == s[q]);
        }
    }
    assert(t[s.len() as int] == x);
    lemma_slot_at(t, x.key@, s.len() as int);
    assert forall|k: Seq<char>| k != x.key@ implies (#[trigger] seq_has_key(t, k) <==> seq_has_key(
        s,
        k,
    )) by {
        if seq_has_key(t, k) {
            let p = choose|p: int| 0 <= p < t.len() && (#[trigger] t[p]).key@ == k;
            assert(p != s.len());
            assert(s[p].key@ == k);
        }
        if seq_has_key(s, k) {
            let p = choose|p: int| 0 <= p < s.len() && (#[trigger] s[p]).key@ == k;
            assert(t[p].key@ == k);
        }
    }
    assert forall|k: Seq<char>| k != x.key@ && #[trigger] seq_has_key(s, k) implies slot_for(
        t,
        k,
    ) == slot_for(s, k) by {
        let p = key_index(s, k);
        assert(0 <= p < s.len() && s[p].key@ == k);
        assert(t[p] == s[p]);
        lemma_slot_at(s, k, p);
        lemma_slot_at(t, k, p);
    }
}

/// Bounded, time-expiring mapping from line identifier to calendar content.
pub struct CalendarCache {
    entries: Vec<CacheSlot>,
    capacity: usize,
    ttl_ms: u64,
}

impl CalendarCache {
    /// The stored slots, in insertion order.
    pub closed spec fn slots(self) -> Seq<CacheSlot> {
        self.entries@
    }

    /// The configured maximum entry count.
    pub closed spec fn spec_capacity(self) -> nat {
        self.capacity as nat
    }

    /// The configured time-to-live in milliseconds.
    pub closed spec fn spec_ttl(self) -> u64 {
        self.ttl_ms
    }

    /// Structural invariant: unique keys, entry count within capacity.
    pub open spec fn wf(self) -> bool {
        &&& keys_unique(self.slots())
        &&& self.slots().len() <= self.spec_capacity()
        &&& self.spec_capacity() >= 1
    }

    /// Number of physically stored entries.
    pub open spec fn spec_len(self) -> nat {
        self.slots().len()
    }

    /// Whether an entry (live or expired) exists for `k`.
    pub open spec fn has_key(self, k: Seq<char>) -> bool {
        seq_has_key(self.slots(), k)
    }

    /// The entry stored for `k`.
    pub open spec fn entry(self, k: Seq<char>) -> CacheSlot {
        slot_for(self.slots(), k)
    }

    /// Whether a lookup of `k` at instant `now_ms` must return content: an
    /// entry exists and its expiry has not been reached.
    pub open spec fn live(self, k: Seq<char>, now_ms: u64) -> bool {
        self.has_key(k) && now_ms < self.entry(k).expiry_ms
    }

    /// Creates an empty cache with the given capacity and TTL.
    pub fn new(capacity: usize, ttl_ms: u64) -> (r: CalendarCache)
        requires
            capacity >= 1,
        ensures
            r.wf(),
            r.spec_len() == 0,
            r.spec_capacity() == capacity,
            r.spec_ttl() == ttl_ms,
            forall|k: Seq<char>| !r.has_key(k),
    {
        CalendarCache { entries: Vec::new(), capacity, ttl_ms }
    }

    /// The configured maximum entry count.
    pub fn capacity(&self) -> (r: usize)
        ensures
            r == self.spec_capacity(),
    {
        self.capacity
    }

    /// The configured time-to-live in milliseconds.
    pub fn ttl_ms(&self) -> (r: u64)
        ensures
            r == self.spec_ttl(),
    {
        self.ttl_ms
    }

    /// Number of physically stored entries.
    pub fn len(&self) -> (r: usize)
        ensures
            r == self.spec_len(),
    {
        self.entries.len()
    }

    /// Looks up `key` at instant `now_ms`. Returns the stored content only
    /// if an entry exists and has not expired; an expired or missing entry
    /// is a miss, never an error.
    pub fn get(&self, key: &str, now_ms: u64) -> (r: Option<String>)
        requires
            self.wf(),
        ensures
            match r {
                Some(c) => self.live(key@, now_ms) && c@ == self.entry(key@).content@,
                None => !self.live(key@, now_ms),
            },
    {
        let k = String::from_str(key);
        let n = self.entries.len();
        let mut i: usize = 0;
        while i < n
            invariant
                self.wf(),
                n == self.slots().len(),
                k@ == key@,
                0 <= i <= n,
                forall|j: int| 0 <= j < i ==> (#[trigger] self.slots()[j]).key@ != key@,
            decreases n - i,
        {
            if self.entries[i].key == k {
                proof {
                    lemma_slot_at(self.slots(), key@, i as int);
                }
                if now_ms < self.entries[i].expiry_ms {
                    return Some(self.entries[i].content.clone());
                } else {
                    return None;
                }
            }
            i += 1;
        }
        proof {
            if seq_has_key(self.slots(), key@) {
                let j = choose|j: int|
                    0 <= j < self.slots().len() && (#[trigger] self.slots()[j]).key@ == key@;
                assert(self.slots()[j].key@ != key@);
            }
        }
        None
    }

    /// Inserts or overwrites the entry for `key` with `content` and a fresh
    /// expiry of `now_ms` + TTL. When the key is new and the cache is at
    /// capacity, an entry with the earliest expiry is evicted first; no
    /// other entry is touched, and no entry is ever fabricated.
    pub fn put(&mut self, key: &str, content: String, now_ms: u64)
        requires
            old(self).wf(),
            now_ms + old(self).spec_ttl() <= u64::MAX,
        ensures
            final(self).wf(),
            final(self).spec_capacity() == old(self).spec_capacity(),
            final(self).spec_ttl() == old(self).spec_ttl(),
            final(self).has_key(key@),
            final(self).entry(key@).content@ == content@,
            final(self).entry(key@).expiry_ms == now_ms + old(self).spec_ttl(),
            forall|k: Seq<char>|
                k != key@ && #[trigger] final(self).has_key(k) ==> old(self).has_key(k) && final(self).entry(k)
                    == old(self).entry(k),
            (old(self).has_key(key@) || old(self).spec_len() < old(self).spec_capacity())
                ==> (forall|k: Seq<char>|
                k != key@ ==> (#[trigger] final(self).has_key(k) <==> old(self).has_key(k))),
            !(old(self).has_key(key@) || old(self).spec_len() < old(self).spec_capacity())
                ==> (exists|v: Seq<char>|
                {
                    &&& #[trigger] old(self).has_key(v)
                    &&& v != key@
                    &&& !final(self).has_key(v)
                    &&& forall|j: int|
                        0 <= j < old(self).slots().len() ==> old(self).entry(v).expiry_ms <= (
                        #[trigger] old(self).slots()[j]).expiry_ms
                    &&& forall|k: Seq<char>|
                        k != key@ && k != v ==> (#[trigger] final(self).has_key(k) <==> old(
                            self,
                        ).has_key(k))
                }),
    {
        let k = String::from_str(key);
        let expiry_ms: u64 = now_ms + self.ttl_ms;
        let n: usize = self.entries.len();
        let mut i: usize = 0;
        while i < n
            invariant
                self.wf(),
                self == old(self),
                n == self.slots().len(),
                k@ == key@,
                expiry_ms == now_ms + old(self).spec_ttl(),
                0 <= i <= n,
                forall|j: int| 0 <= j < i ==> (#[trigger] self.slots()[j]).key@ != key@,
            decreases n - i,
        {
            if self.entries[i].key == k {
                let fresh = CacheSlot { key: k, content, expiry_ms };
                proof {
                    lemma_slot_at(self.slots(), key@, i as int);
                    lemma_remove_keys(self.slots(), i as int);
                    lemma_push_keys(self.slots().remove(i as int), fresh);
                }
                self.entries.remove(i);
                self.entries.push(fresh);
                return ;
            }
            i += 1;
        }
        let fresh = CacheSlot { key: k, content, expiry_ms };
        proof {
            if seq_has_key(self.slots(), key@) {
                let j = choose|j: int|
                    0 <= j < self.slots().len() && (#[trigger] self.slots()[j]).key@ == key@;
                assert(self.slots()[j].key@ != key@);
            }
        }
        if n < self.capacity {
            proof {
                lemma_push_keys(self.slots(), fresh);
            }
            self.entries.push(fresh);
            return ;
        }
        // At capacity with a new key: evict an entry with the earliest expiry.
        let mut victim: usize = 0;
        let mut i: usize = 1;
        while i < n
            invariant
                self.wf(),
                self == old(self),
                n == self.slots().len(),
                1 <= n,
                0 <= victim < n,
                victim < i <= n,
                forall|j: int|
                    0 <= j < i ==> self.slots()[victim as int].expiry_ms <= (
                    #[trigger] self.slots()[j]).expiry_ms,
            decreases n - i,
        {
            if self.entries[i].expiry_ms < self.entries[victim].expiry_ms {
                victim = i;
            }
            i += 1;
        }
        proof {
            lemma_slot_at(self.slots(), self.slots()[victim as int].key@, victim as int);
            lemma_remove_keys(self.slots(), victim as int);
            if seq_has_key(self.slots().remove(victim as int), key@) {
                assert(seq_has_key(self.slots(), key@));
            }
            lemma_push_keys(self.slots().remove(victim as int), fresh);
        }
        let ghost victim_key = self.slots()[victim as int].key@;
        self.entries.remove(victim);
        self.entries.push(fresh);
        proof {
            assert(old(self).has_key(victim_key) && victim_key != key@ && !self.has_key(victim_key)
                && (forall|j: int|
                0 <= j < old(self).slots().len() ==> old(self).entry(victim_key).expiry_ms <= (
                #[trigger] old(self).slots()[j]).expiry_ms) && (forall|kk: Seq<char>|
                kk != key@ && kk != victim_key ==> (#[trigger] self.has_key(kk) <==> old(
                    self,
                ).has_key(kk))));
        }
    }
}

/// Read-after-write: after an insertion at instant `put_ms`, the entry is
/// live with exactly the inserted content at `put_ms` itself and at every
/// instant strictly before `put_ms` + TTL.
pub proof fn lemma_read_after_write(
    c: CalendarCache,
    k: Seq<char>,
    content: Seq<char>,
    put_ms: u64,
    read_ms: u64,
)
    requires
        c.wf(),
        c.has_key(k),
        c.entry(k).content@ == content,
        c.entry(k).expiry_ms == put_ms + c.spec_ttl(),
        put_ms <= read_ms < put_ms + c.spec_ttl(),
    ensures
        c.live(k, read_ms),
        c.entry(k).content@ == content,
{
}

/// Expiry: once the TTL has elapsed past an entry's insertion, a lookup is
/// a miss even though the entry may still physically exist.
pub proof fn lemma_expired_entry_is_miss(c: CalendarCache, k: Seq<char>, read_ms: u64)
    requires
        c.wf(),
        c.has_key(k),
        read_ms >= c.entry(k).expiry_ms,
    ensures
        !c.live(k, read_ms),
        c.has_key(k),
{
}

/// Capacity: a well-formed cache never holds more entries than its
/// configured capacity.
pub proof fn lemma_capacity_never_exceeded(c: CalendarCache)
    requires
        c.wf(),
    ensures
        c.spec_len() <= c.spec_capacity(),
{
}

} // verus!


