//! Per-client token-bucket rate limiter.
//!
//! Every client network address owns an independent bucket holding up to
//! `burst` tokens (tracked in thousandths, "milli-tokens", so that refill
//! arithmetic stays integral). Tokens refill monotonically with the clock at
//! `rate` tokens per second, capped at the burst ceiling; each admitted
//! request consumes one token. A bucket is created full on a client's first
//! request.

use vstd::prelude::*;

verus! {

/// The smaller of two integers.
pub open spec fn min_int(a: int, b: int) -> int {
    if a <= b {
        a
    } else {
        b
    }
}

/// Refill/consume state of one client's bucket.
pub struct TokenBucket {
    /// Available tokens, in thousandths of a token.
    pub milli_tokens: u64,
    /// Instant of the last update, in milliseconds.
    pub last_ms: u64,
}

/// Bucket invariant: holdings never exceed the burst ceiling.
pub open spec fn bucket_wf(b: TokenBucket, burst: u64) -> bool {
    b.milli_tokens <= burst * 1000
}

/// Milli-tokens available at `now_ms`: the holdings plus `rate` tokens per
/// second of elapsed time, capped at the burst ceiling. A clock that has not
/// advanced (or stepped back) refills nothing.
pub open spec fn refill_milli(b: TokenBucket, now_ms: u64, rate: u64, burst: u64) -> int {
    let elapsed: int = if now_ms >= b.last_ms {
        now_ms - b.last_ms
    } else {
        0
    };
    min_int(burst * 1000, b.milli_tokens + elapsed * rate)
}

/// Whether a request at `now_ms` is admitted: one whole token is available.
pub open spec fn step_admits(b: TokenBucket, now_ms: u64, rate: u64, burst: u64) -> bool {
    refill_milli(b, now_ms, rate, burst) >= 1000
}

/// The bucket after a request at `now_ms`: refilled, and one token poorer
/// when the request was admitted.
pub open spec fn bucket_after(b: TokenBucket, now_ms: u64, rate: u64, burst: u64) -> TokenBucket {
    TokenBucket {
        milli_tokens: (if step_admits(b, now_ms, rate, burst) {
            refill_milli(b, now_ms, rate, burst) - 1000
        } else {
            refill_milli(b, now_ms, rate, burst)
        }) as u64,
        last_ms: if now_ms >= b.last_ms {
            now_ms
        } else {
            b.last_ms
        },
    }
}

/// A freshly created bucket: full, last updated now.
pub open spec fn full_bucket(now_ms: u64, burst: u64) -> TokenBucket {
    TokenBucket { milli_tokens: (burst * 1000) as u64, last_ms: now_ms }
}

/// Refills `b` to instant `now_ms` and tries to consume one token.
fn bucket_try_consume(b: &TokenBucket, now_ms: u64, rate: u64, burst: u64) -> (r: (
    bool,
    TokenBucket,
))
    requires
        burst * 1000 <= u64::MAX,
        bucket_wf(*b, burst),
    ensures
        r.0 == step_admits(*b, now_ms, rate, burst),
        r.1 == bucket_after(*b, now_ms, rate, burst),
        bucket_wf(r.1, burst),
{
    let cap: u64 = burst * 1000;
    let elapsed: u64 = if now_ms >= b.last_ms {
        now_ms - b.last_ms
    } else {
        0
    };
    proof {
        assert(elapsed as int * rate as int <= u64::MAX as int * u64::MAX as int)
            by (nonlinear_arith)
            requires
                0 <= elapsed as int <= u64::MAX as int,
                0 <= rate as int <= u64::MAX as int,
        ;
    }
    let gained: u128 = (elapsed as u128) * (rate as u128);
    let total: u128 = (b.milli_tokens as u128) + gained;
    let available: u64 = if total >= (cap as u128) {
        cap
    } else {
        total as u64
    };
    let new_last: u64 = if now_ms >= b.last_ms {
        now_ms
    } else {
        b.last_ms
    };
    if available >= 1000 {
        (true, TokenBucket { milli_tokens: available - 1000, last_ms: new_last })
    } else {
        (false, TokenBucket { milli_tokens: available, last_ms: new_last })
    }
}

/// One client's registry slot.
pub struct ClientSlot {
    pub client: u64,
    pub bucket: TokenBucket,
}

/// Whether some slot of `s` belongs to client `c`.
pub open spec fn seq_has_client(s: Seq<ClientSlot>, c: u64) -> bool {
    exists|i: int| 0 <= i < s.len() && (#[trigger] s[i]).client == c
}

/// The index of client `c`'s slot (unique when clients are unique).
pub open spec fn client_index(s: Seq<ClientSlot>, c: u64) -> int {
    choose|i: int| 0 <= i < s.len() && (#[trigger] s[i]).client == c
}

/// Client `c`'s slot.
pub open spec fn slot_of(s: Seq<ClientSlot>, c: u64) -> ClientSlot {
    s[client_index(s, c)]
}

/// No two slots belong to the same client.
pub open spec fn clients_unique(s: Seq<ClientSlot>) -> bool {
    forall|i: int, j: int|
        0 <= i < j < s.len() ==> (#[trigger] s[i]).client != (#[trigger] s[j]).client
}

/// With unique clients, the slot at an index owning `c` is the slot of `c`.
proof fn lemma_client_at(s: Seq<ClientSlot>, c: u64, i: int)
    requires
        clients_unique(s),
        0 <= i < s.len(),
        s[i].client == c,
    ensures
        seq_has_client(s, c),
        client_index(s, c) == i,
        slot_of(s, c) == s[i],
{
    assert(seq_has_client(s, c));
    let j = client_index(s, c);
    assert(0 <= j < s.len() && s[j].client == c);
    if j < i {
        assert(s[j].client != s[i].client);
    } else if i < j {
        assert(s[i].client != s[j].client);
    }
}

/// Appending a slot for a new client: uniqueness is preserved, the new
/// client maps to the new slot, every old client keeps its slot.
proof fn lemma_client_push(s: Seq<ClientSlot>, x: ClientSlot)
    requires
        clients_unique(s),
        !seq_has_client(s, x.client),
    ensures
        clients_unique(s.push(x)),
        seq_has_client(s.push(x), x.client),
        slot_of(s.push(x), x.client) == x,
        forall|c: u64|
            c != x.client ==> (#[trigger] seq_has_client(s.push(x), c) <==> seq_has_client(s, c)),
        forall|c: u64|
            c != x.client && #[trigger] seq_has_client(s, c) ==> slot_of(s.push(x), c) == slot_of(
                s,
                c,
            ),
{
    let t = s.push(x);
    assert forall|p: int, q: int| 0 <= p < q < t.len() implies (#[trigger] t[p]).client != (
    #[trigger] t[q]).client by {
        if q == s.len() {
            assert(t[q] == x);
            assert(t[p] == s[p]);
            if t[p].client == x.client {
                assert(seq_has_client(s, x.client));
            }
        } else {
            assert(t[p] == s[p] && t[q] == s[q]);
        }
    }
    assert(t[s.len() as int] == x);
    lemma_client_at(t, x.client, s.len() as int);
    assert forall|c: u64| c != x.client implies (#[trigger] seq_has_client(t, c)
        <==> seq_has_client(s, c)) by {
        if seq_has_client(t, c) {
            let p = choose|p: int| 0 <= p < t.len() && (#[trigger] t[p]).client == c;
            assert(p != s.len());
            assert(s[p].client == c);
        }
        if seq_has_client(s, c) {
            let p = choose|p: int| 0 <= p < s.len() && (#[trigger] s[p]).client == c;
            assert(t[p].client == c);
        }
    }
    assert forall|c: u64| c != x.client && #[trigger] seq_has_client(s, c) implies slot_of(t, c)
        == slot_of(s, c) by {
        let p = client_index(s, c);
        assert(0 <= p < s.len() && s[p].client == c);
        assert(t[p] == s[p]);
        lemma_client_at(s, c, p);
        lemma_client_at(t, c, p);
    }
}

/// Replacing a slot by one for the same client: uniqueness and membership
/// are preserved, the client maps to the new slot, others keep theirs.
proof fn lemma_client_update(s: Seq<ClientSlot>, i: int, x: ClientSlot)
    requires
        clients_unique(s),
        0 <= i < s.len(),
        s[i].client == x.client,
    ensures
        clients_unique(s.update(i, x)),
        forall|c: u64| #[trigger] seq_has_client(s.update(i, x), c) <==> seq_has_client(s, c),
        slot_of(s.update(i, x), x.client) == x,
        forall|c: u64|
            c != x.client && #[trigger] seq_has_client(s, c) ==> slot_of(s.update(i, x), c)
                == slot_of(s, c),
{
    let t = s.update(i, x);
    assert forall|p: int, q: int| 0 <= p < q < t.len() implies (#[trigger] t[p]).client != (
    #[trigger] t[q]).client by {
        assert(s[p].client != s[q].client);
    }
    assert forall|c: u64| #[trigger] seq_has_client(t, c) <==> seq_has_client(s, c) by {
        if seq_has_client(t, c) {
            let p = choose|p: int| 0 <= p < t.len() && (#[trigger] t[p]).client == c;
            if p == i {
                assert(s[i].client == c);
            } else {
                assert(s[p].client == c);
            }
        }
        if seq_has_client(s, c) {
            let p = choose|p: int| 0 <= p < s.len() && (#[trigger] s[p]).client == c;
            if p == i {
                assert(t[i].client == c);
            } else {
                assert(t[p].client == c);
            }
        }
    }
    lemma_client_at(t, x.client, i);
    assert forall|c: u64| c != x.client && #[trigger] seq_has_client(s, c) implies slot_of(t, c)
        == slot_of(s, c) by {
        let p = client_index(s, c);
        assert(0 <= p < s.len() && s[p].client == c);
        lemma_client_at(s, c, p);
        assert(p != i);
        assert(t[p] == s[p]);
        lemma_client_at(t, c, p);
    }
}

/// Registry of per-client token buckets with a shared rate configuration.
pub struct RateLimiter {
    buckets: Vec<ClientSlot>,
    rate_per_second: u64,
    burst: u64,
}

impl RateLimiter {
    /// The stored client slots.
    pub closed spec fn slots(self) -> Seq<ClientSlot> {
        self.buckets@
    }

    /// Sustained rate, in tokens per second.
    pub closed spec fn spec_rate(self) -> u64 {
        self.rate_per_second
    }

    /// Burst ceiling, in tokens.
    pub closed spec fn spec_burst(self) -> u64 {
        self.burst
    }

    /// Structural invariant: sane configuration, unique clients, and every
    /// bucket within the burst ceiling.
    pub open spec fn wf(self) -> bool {
        &&& self.spec_rate() >= 1
        &&& self.spec_burst() >= 1
        &&& self.spec_burst() * 1000 <= u64::MAX
        &&& clients_unique(self.slots())
        &&& forall|i: int|
            0 <= i < self.slots().len() ==> bucket_wf(
                (#[trigger] self.slots()[i]).bucket,
                self.spec_burst(),
            )
    }

    /// Whether client `c` currently owns a bucket.
    pub open spec fn has_client(self, c: u64) -> bool {
        seq_has_client(self.slots(), c)
    }

    /// Client `c`'s bucket.
    pub open spec fn bucket_of(self, c: u64) -> TokenBucket {
        slot_of(self.slots(), c).bucket
    }

    /// The bucket a request of client `c` at `now_ms` is charged against:
    /// the stored one, or a fresh full bucket on the first request.
    pub open spec fn effective_bucket(self, c: u64, now_ms: u64) -> TokenBucket {
        if self.has_client(c) {
            self.bucket_of(c)
        } else {
            full_bucket(now_ms, self.spec_burst())
        }
    }

    /// Creates an empty registry.
    pub fn new(rate_per_second: u64, burst: u64) -> (r: RateLimiter)
        requires
            rate_per_second >= 1,
            burst >= 1,
            burst * 1000 <= u64::MAX,
        ensures
            r.wf(),
            r.spec_rate() == rate_per_second,
            r.spec_burst() == burst,
            forall|c: u64| !r.has_client(c),
    {
        let r = RateLimiter { buckets: Vec::new(), rate_per_second, burst };
        proof {
            assert forall|c: u64| !r.has_client(c) by {
                if seq_has_client(r.slots(), c) {
                    let p = choose|p: int|
                        0 <= p < r.slots().len() && (#[trigger] r.slots()[p]).client == c;
                }
            }
        }
        r
    }

    /// Sustained rate, in tokens per second.
    pub fn rate_per_second(&self) -> (r: u64)
        ensures
            r == self.spec_rate(),
    {
        self.rate_per_second
    }

    /// Burst ceiling, in tokens.
    pub fn burst(&self) -> (r: u64)
        ensures
            r == self.spec_burst(),
    {
        self.burst
    }

    /// Charges one request of client `c` at instant `now_ms` against its
    /// bucket (created full on first sight). Returns whether the request is
    /// admitted; a rejected request must not reach the cache or the upstream
    /// fetch. Buckets of other clients are untouched.
    pub fn try_acquire(&mut self, c: u64, now_ms: u64) -> (admitted: bool)
        requires
            old(self).wf(),
        ensures
            final(self).wf(),
            final(self).spec_rate() == old(self).spec_rate(),
            final(self).spec_burst() == old(self).spec_burst(),
            admitted == step_admits(
                old(self).effective_bucket(c, now_ms),
                now_ms,
                old(self).spec_rate(),
                old(self).spec_burst(),
            ),
            final(self).has_client(c),
            final(self).bucket_of(c) == bucket_after(
                old(self).effective_bucket(c, now_ms),
                now_ms,
                old(self).spec_rate(),
                old(self).spec_burst(),
            ),
            forall|o: u64|
                o != c ==> (#[trigger] final(self).has_client(o) <==> old(self).has_client(o)),
            forall|o: u64|
                o != c && #[trigger] old(self).has_client(o) ==> final(self).bucket_of(o) == old(self).bucket_of(o),
    {
        let rate: u64 = self.rate_per_second;
        let burst: u64 = self.burst;
        let n: usize = self.buckets.len();
        let mut i: usize = 0;
        while i < n
            invariant
                self.wf(),
                self == old(self),
                rate == self.spec_rate(),
                burst == self.spec_burst(),
                n == self.slots().len(),
                0 <= i <= n,
                forall|j: int| 0 <= j < i ==> (#[trigger] self.slots()[j]).client != c,
            decreases n - i,
        {
            if self.buckets[i].client == c {
                proof {
                    lemma_client_at(self.slots(), c, i as int);
                }
                let (admitted, updated) = bucket_try_consume(
                    &self.buckets[i].bucket,
                    now_ms,
                    rate,
                    burst,
                );
                let replacement = ClientSlot { client: c, bucket: updated };
                proof {
                    lemma_client_update(self.slots(), i as int, replacement);
                }
                self.buckets[i] = replacement;
                return admitted;
            }
            i += 1;
        }
        proof {
            if seq_has_client(self.slots(), c) {
                let j = choose|j: int|
                    0 <= j < self.slots().len() && (#[trigger] self.slots()[j]).client == c;
                assert(self.slots()[j].client != c);
            }
        }
        let start = TokenBucket { milli_tokens: burst * 1000, last_ms: now_ms };
        let (admitted, updated) = bucket_try_consume(&start, now_ms, rate, burst);
        let slot = ClientSlot { client: c, bucket: updated };
        proof {
            lemma_client_push(self.slots(), slot);
        }
        self.buckets.push(slot);
        admitted
    }

    /// Garbage-collects buckets idle since before `cutoff_ms`: every bucket
    /// last updated at or after the cutoff survives unchanged, and nothing
    /// else remains. Safe at any time, since a dropped client is treated as
    /// new on its next request and a fresh bucket starts full.
    pub fn remove_idle(&mut self, cutoff_ms: u64)
        requires
            old(self).wf(),
        ensures
            final(self).wf(),
            final(self).spec_rate() == old(self).spec_rate(),
            final(self).spec_burst() == old(self).spec_burst(),
            forall|c: u64|
                #[trigger] final(self).has_client(c) ==> old(self).has_client(c) && final(self).bucket_of(c) == old(self).bucket_of(c) && old(self).bucket_of(c).last_ms
                    >= cutoff_ms,
            forall|c: u64|
                #[trigger] old(self).has_client(c) && old(self).bucket_of(c).last_ms >= cutoff_ms
                    ==> final(self).has_client(c),
    {
        let ghost s0 = self.slots();
        let mut kept: Vec<ClientSlot> = Vec::new();
        proof {
            assert(s0.subrange(0, s0.len() as int) =~= s0);
        }
        while self.buckets.len() > 0
            invariant
                self.spec_rate() == old(self).spec_rate(),
                self.spec_burst() == old(self).spec_burst(),
                clients_unique(s0),
                forall|j: int|
                    0 <= j < s0.len() ==> bucket_wf(
                        (#[trigger] s0[j]).bucket,
                        old(self).spec_burst(),
                    ),
                self.slots() == s0.subrange(0, self.slots().len() as int),
                self.slots().len() <= s0.len(),
                clients_unique(kept@),
                forall|i: int|
                    0 <= i < kept@.len() ==> exists|j: int|
                        self.slots().len() <= j < s0.len() && s0[j] == #[trigger] kept@[i],
                forall|i: int|
                    0 <= i < kept@.len() ==> (#[trigger] kept@[i]).bucket.last_ms >= cutoff_ms,
                forall|j: int|
                    self.slots().len() <= j < s0.len() && (#[trigger] s0[j]).bucket.last_ms
                        >= cutoff_ms ==> seq_has_client(kept@, s0[j].client) && slot_of(
                        kept@,
                        s0[j].client,
                    ) == s0[j],
            decreases self.slots().len(),
        {
            let ghost pre = self.slots();
            let ghost m = self.slots().len() as int - 1;
            let popped = self.buckets.pop();
            proof {
                assert(pre[m] == s0.subrange(0, m + 1)[m]);
                assert(self.slots() =~= s0.subrange(0, m));
            }
            if let Some(slot) = popped {
                proof {
                    assert(slot == s0[m]);
                    assert(!seq_has_client(kept@, slot.client)) by {
                        if seq_has_client(kept@, slot.client) {
                            let i = choose|i: int|
                                0 <= i < kept@.len() && (#[trigger] kept@[i]).client
                                    == slot.client;
                            let j = choose|j: int|
                                m + 1 <= j < s0.len() && s0[j] == #[trigger] kept@[i];
                            assert(s0[m].client != s0[j].client);
                        }
                    }
                }
                if slot.bucket.last_ms >= cutoff_ms {
                    proof {
                        lemma_client_push(kept@, slot);
                    }
                    kept.push(slot);
                    proof {
                        assert(kept@.last() == slot);
                        assert forall|j: int|
                            m <= j < s0.len() && (#[trigger] s0[j]).bucket.last_ms
                                >= cutoff_ms implies seq_has_client(kept@, s0[j].client)
                            && slot_of(kept@, s0[j].client) == s0[j] by {
                            if j == m {
                                assert(slot_of(kept@, slot.client) == slot);
                            } else {
                                assert(s0[j].client != slot.client);
                            }
                        }
                    }
                }
            }
        }
        let ghost keptv = kept@;
        self.buckets = kept;
        proof {
            assert(self.slots() == keptv);
            assert forall|c: u64| #[trigger] self.has_client(c) implies old(self).has_client(c)
                && self.bucket_of(c) == old(self).bucket_of(c) && old(self).bucket_of(c).last_ms
                >= cutoff_ms by {
                let i = client_index(keptv, c);
                assert(0 <= i < keptv.len() && keptv[i].client == c);
                lemma_client_at(keptv, c, i);
                let j = choose|j: int| 0 <= j < s0.len() && s0[j] == keptv[i];
                lemma_client_at(s0, c, j);
            }
            assert forall|c: u64| #[trigger]
                old(self).has_client(c) && old(self).bucket_of(c).last_ms
                >= cutoff_ms implies self.has_client(c) by {
                let j = client_index(s0, c);
                assert(0 <= j < s0.len() && s0[j].client == c);
                lemma_client_at(s0, c, j);
            }
        }
    }
}

/// A request is admitted whenever enough time has passed since the bucket's
/// last update to refill one whole token — whatever the bucket held before.
/// A client pacing its requests at or below the sustained rate is therefore
/// never rejected.
pub proof fn lemma_paced_request_admitted(b: TokenBucket, now_ms: u64, rate: u64, burst: u64)
    requires
        burst >= 1,
        now_ms >= b.last_ms,
        (now_ms - b.last_ms) * rate >= 1000,
    ensures
        step_admits(b, now_ms, rate, burst),
{
}

/// The instants of a run of same-clock requests, all at `t`.
pub open spec fn same_instant(t: u64, k: nat) -> Seq<u64> {
    Seq::new(k, |i: int| t)
}

/// The bucket left after a run of requests at the given instants.
pub open spec fn bucket_after_run(b: TokenBucket, times: Seq<u64>, rate: u64, burst: u64) -> TokenBucket
    decreases times.len(),
{
    if times.len() == 0 {
        b
    } else {
        bucket_after_run(bucket_after(b, times[0], rate, burst), times.drop_first(), rate, burst)
    }
}

/// Whether every request of a run at the given instants is admitted.
pub open spec fn run_all_admitted(b: TokenBucket, times: Seq<u64>, rate: u64, burst: u64) -> bool
    decreases times.len(),
{
    if times.len() == 0 {
        true
    } else {
        step_admits(b, times[0], rate, burst) && run_all_admitted(
            bucket_after(b, times[0], rate, burst),
            times.drop_first(),
            rate,
            burst,
        )
    }
}

/// A client pacing every request so that a whole token refills in between —
/// that is, staying at or below the sustained rate — is never rejected, on
/// any run of requests and whatever its bucket held at the start.
pub proof fn lemma_slow_client_never_rejected(
    b: TokenBucket,
    times: Seq<u64>,
    rate: u64,
    burst: u64,
)
    requires
        burst >= 1,
        times.len() > 0 ==> times[0] >= b.last_ms && (times[0] - b.last_ms) * rate >= 1000,
        forall|i: int|
            0 < i < times.len() ==> #[trigger] times[i] >= times[i - 1] && (times[i] - times[i
                - 1]) * rate >= 1000,
    ensures
        run_all_admitted(b, times, rate, burst),
    decreases times.len(),
{
    if times.len() > 0 {
        lemma_paced_request_admitted(b, times[0], rate, burst);
        let b1 = bucket_after(b, times[0], rate, burst);
        assert(b1.last_ms == times[0]);
        let tail = times.drop_first();
        assert(forall|i: int| 0 <= i < tail.len() ==> #[trigger] tail[i] == times[i + 1]);
        lemma_slow_client_never_rejected(b1, tail, rate, burst);
    }
}

/// Refilling at the very instant of the last update leaves the holdings
/// unchanged: no time has passed, so nothing is gained.
proof fn lemma_refill_same_instant(b: TokenBucket, rate: u64, burst: u64)
    requires
        bucket_wf(b, burst),
    ensures
        refill_milli(b, b.last_ms, rate, burst) == b.milli_tokens,
{
    let e: int = b.last_ms - b.last_ms;
    assert(e * rate == 0) by (nonlinear_arith)
        requires
            e == 0,
    ;
}

/// Within burst limits a client is never rejected: starting from a bucket
/// holding at least `k` whole tokens, `k` requests in one instant are all
/// admitted, and they drain exactly `k` tokens.
pub proof fn lemma_burst_within_limit_admitted(
    b: TokenBucket,
    t: u64,
    rate: u64,
    burst: u64,
    k: nat,
)
    requires
        burst >= 1,
        bucket_wf(b, burst),
        b.last_ms == t,
        b.milli_tokens >= k * 1000,
    ensures
        run_all_admitted(b, same_instant(t, k), rate, burst),
        bucket_after_run(b, same_instant(t, k), rate, burst).milli_tokens == b.milli_tokens - k
            * 1000,
        bucket_after_run(b, same_instant(t, k), rate, burst).last_ms == t,
    decreases k,
{
    if k == 0 {
        assert(same_instant(t, 0).len() == 0);
    } else {
        let times = same_instant(t, k);
        lemma_refill_same_instant(b, rate, burst);
        assert(refill_milli(b, t, rate, burst) == b.milli_tokens);
        assert(step_admits(b, t, rate, burst));
        let b1 = bucket_after(b, t, rate, burst);
        assert(b1.milli_tokens == b.milli_tokens - 1000);
        assert(b1.last_ms == t);
        assert(times.drop_first() =~= same_instant(t, (k - 1) as nat));
        lemma_burst_within_limit_admitted(b1, t, rate, burst, (k - 1) as nat);
    }
}

/// Bursting beyond the burst ceiling is rejected within the burst window:
/// from a full bucket, the first `burst` same-instant requests are admitted
/// and the very next one is rejected.
pub proof fn lemma_burst_beyond_limit_rejected(t: u64, rate: u64, burst: u64)
    requires
        burst >= 1,
        burst * 1000 <= u64::MAX,
    ensures
        run_all_admitted(full_bucket(t, burst), same_instant(t, burst as nat), rate, burst),
        !step_admits(
            bucket_after_run(full_bucket(t, burst), same_instant(t, burst as nat), rate, burst),
            t,
            rate,
            burst,
        ),
{
    let b = full_bucket(t, burst);
    lemma_burst_within_limit_admitted(b, t, rate, burst, burst as nat);
    let after = bucket_after_run(b, same_instant(t, burst as nat), rate, burst);
    assert(after.milli_tokens == 0);
    lemma_refill_same_instant(after, rate, burst);
    assert(refill_milli(after, t, rate, burst) == 0);
}

} // verus!
