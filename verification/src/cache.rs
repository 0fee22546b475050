//! The byte-capacity-bounded in-memory cache with time-to-live and
//! time-to-idle expiry.
//!
//! The store maps 64-bit cache keys to byte values.  Every entry carries the
//! time it was inserted and the time it was last read; an entry is expired —
//! and is never returned by `get` — once `now - insertion_time` reaches the
//! time-to-live or `now - last_access_time` reaches the time-to-idle,
//! whichever occurs first.  Each entry is weighed at `min(len, WEIGHT_CAP)`
//! bytes, and an insert evicts least-recently-used entries until the summed
//! weight is back under the configured capacity, so the bound holds again
//! before `insert` returns.
//!
//! Time enters every operation as an explicit millisecond timestamp supplied
//! by the caller; the store clamps it to be monotone, so a stale clock can
//! never make timestamps run backwards.  The store itself is a single
//! sequential engine: an embedder that wants concurrent access wraps shards
//! of it in locks and routes keys with `keys::shard_index`, which keeps
//! unrelated keys from contending on one lock.

use vstd::prelude::*;

use crate::errors::ImageError;
use crate::keys::CacheKey;

verus! {

/// Cache configuration, immutable after construction: capacity in megabytes
/// and the two expiry windows in seconds.
#[derive(Clone, Copy, Debug, PartialEq, Eq, Structural)]
pub struct CacheConfig {
    pub max_capacity_mb: u64,
    pub time_to_live_sec: u64,
    pub time_to_idle_sec: u64,
}

/// The most an entry can weigh: larger values are charged this much, making
/// capacity accounting conservative rather than exact for oversized entries,
/// and keeping the accounting itself free of overflow.
pub const WEIGHT_CAP: u64 = 4294967295;

/// The largest accepted capacity in megabytes; keeps `capacity + WEIGHT_CAP`
/// within `u64`.
pub const MAX_CAPACITY_MB: u64 = 17592186040320;

/// The largest accepted expiry window in seconds; keeps the window in
/// milliseconds within `u64`.
pub const MAX_EXPIRY_SEC: u64 = 18446744073709551;

/// Bytes per megabyte.
pub const BYTES_PER_MB: u64 = 1048576;

/// The mathematical model of one cache entry.
#[verifier::ext_equal]
pub ghost struct EntryModel {
    pub key: u64,
    pub bytes: Seq<u8>,
    pub inserted_at: int,
    pub last_access: int,
}

/// The mathematical model of the whole store: the entries in insertion
/// order, the configured bounds, the monotone clock, and the lookup
/// counters behind the hit-rate statistic.
#[verifier::ext_equal]
pub ghost struct CacheModel {
    pub entries: Seq<EntryModel>,
    pub capacity: int,
    pub ttl_ms: int,
    pub tti_ms: int,
    pub clock: int,
    pub hits: int,
    pub lookups: int,
}

/// The capacity cost charged for a value of this length.
pub open spec fn spec_weight(bytes: Seq<u8>) -> int {
    if bytes.len() <= WEIGHT_CAP { bytes.len() as int } else { WEIGHT_CAP as int }
}

/// The summed weight of a sequence of entries.
pub open spec fn sum_weights(entries: Seq<EntryModel>) -> int
    decreases entries.len(),
{
    if entries.len() == 0 {
        0
    } else {
        sum_weights(entries.drop_last()) + spec_weight(entries.last().bytes)
    }
}

/// No two entries share a key.
pub open spec fn unique_keys(entries: Seq<EntryModel>) -> bool {
    forall|i: int, j: int|
        0 <= i < j < entries.len() ==> (#[trigger] entries[i]).key != (#[trigger] entries[j]).key
}

/// Every timestamp is well-ordered and no later than the store's clock.
pub open spec fn times_bounded(entries: Seq<EntryModel>, clock: int) -> bool {
    forall|i: int|
        0 <= i < entries.len() ==> 0 <= (#[trigger] entries[i]).inserted_at
            <= entries[i].last_access <= clock
}

impl CacheModel {
    /// Well-formedness: bounded configuration, unique keys, ordered
    /// timestamps, and — the capacity invariant — summed weight within the
    /// configured bound.
    pub open spec fn wf(self) -> bool {
        &&& 0 < self.capacity <= u64::MAX - WEIGHT_CAP
        &&& 0 <= self.ttl_ms <= u64::MAX
        &&& 0 <= self.tti_ms <= u64::MAX
        &&& 0 <= self.clock <= u64::MAX
        &&& 0 <= self.hits <= self.lookups <= u64::MAX
        &&& unique_keys(self.entries)
        &&& times_bounded(self.entries, self.clock)
        &&& sum_weights(self.entries) <= self.capacity
    }
}

/// Whether an entry is expired at time `t`: its age reached the
/// time-to-live, or the time since its last access reached the
/// time-to-idle.
pub open spec fn spec_expired(e: EntryModel, t: int, ttl_ms: int, tti_ms: int) -> bool {
    t - e.inserted_at >= ttl_ms || t - e.last_access >= tti_ms
}

/// Whether some entry holds this key.
pub open spec fn contains_key(entries: Seq<EntryModel>, key: u64) -> bool {
    exists|i: int| 0 <= i < entries.len() && (#[trigger] entries[i]).key == key
}

/// The index of the entry holding this key (unique when keys are unique).
pub open spec fn index_of_key(entries: Seq<EntryModel>, key: u64) -> int {
    choose|i: int| 0 <= i < entries.len() && (#[trigger] entries[i]).key == key
}

/// A counter bumped by one, saturating at the largest `u64`.
pub open spec fn sat_inc(x: int) -> int {
    if x < u64::MAX { x + 1 } else { x }
}

/// The effective time of an operation: the supplied time, clamped so the
/// store's clock never runs backwards.
pub open spec fn spec_eff_now(clock: int, t: int) -> int {
    if t > clock { t } else { clock }
}

/// Recency order used to choose eviction victims: least recently accessed
/// first, oldest insertion breaking ties.
pub open spec fn lex_le(a: EntryModel, b: EntryModel) -> bool {
    a.last_access < b.last_access || (a.last_access == b.last_access && a.inserted_at
        <= b.inserted_at)
}

/// Strict recency order.
pub open spec fn lex_lt(a: EntryModel, b: EntryModel) -> bool {
    a.last_access < b.last_access || (a.last_access == b.last_access && a.inserted_at
        < b.inserted_at)
}

/// The first index among `entries[0..n]` that minimizes the recency order.
pub open spec fn victim_upto(entries: Seq<EntryModel>, n: int) -> int
    decreases n,
{
    if n <= 1 {
        0
    } else {
        let b = victim_upto(entries, n - 1);
        if lex_lt(entries[n - 1], entries[b]) {
            n - 1
        } else {
            b
        }
    }
}

/// The eviction victim: the first least-recently-used entry.
pub open spec fn victim_idx(entries: Seq<EntryModel>) -> int {
    victim_upto(entries, entries.len() as int)
}

/// Evicts least-recently-used entries until the summed weight is within the
/// capacity.
pub open spec fn spec_evict(entries: Seq<EntryModel>, cap: int) -> Seq<EntryModel>
    decreases entries.len(),
{
    if entries.len() == 0 || sum_weights(entries) <= cap {
        entries
    } else {
        let v = victim_idx(entries);
        if 0 <= v < entries.len() {
            spec_evict(entries.remove(v), cap)
        } else {
            entries
        }
    }
}

/// The `get` transition: bump the lookup counter; on a live entry, refresh
/// its last access time and return its bytes; drop an expired entry on the
/// spot; return nothing on a miss.
pub open spec fn spec_get(m: CacheModel, key: u64, t: int) -> (CacheModel, Option<Seq<u8>>) {
    let eff = spec_eff_now(m.clock, t);
    let lk = sat_inc(m.lookups);
    if contains_key(m.entries, key) {
        let i = index_of_key(m.entries, key);
        let e = m.entries[i];
        if spec_expired(e, eff, m.ttl_ms, m.tti_ms) {
            (CacheModel { entries: m.entries.remove(i), clock: eff, lookups: lk, ..m }, None)
        } else {
            (
                CacheModel {
                    entries: m.entries.update(i, EntryModel { last_access: eff, ..e }),
                    clock: eff,
                    hits: sat_inc(m.hits),
                    lookups: lk,
                    ..m
                },
                Some(e.bytes),
            )
        }
    } else {
        (CacheModel { clock: eff, lookups: lk, ..m }, None)
    }
}

/// The entries with any prior entry for the key dropped: the first step of
/// the insert transition.
pub open spec fn insert_base(m: CacheModel, key: u64) -> Seq<EntryModel> {
    if contains_key(m.entries, key) {
        m.entries.remove(index_of_key(m.entries, key))
    } else {
        m.entries
    }
}

/// The entries with the fresh entry appended, stamped with the effective
/// time: the second step of the insert transition.
pub open spec fn insert_appended(m: CacheModel, key: u64, bytes: Seq<u8>, t: int) -> Seq<
    EntryModel,
> {
    let eff = spec_eff_now(m.clock, t);
    insert_base(m, key).push(EntryModel { key, bytes, inserted_at: eff, last_access: eff })
}

/// The `insert` transition: drop any prior entry for the key, append a fresh
/// entry stamped with the effective time, then evict until the capacity
/// bound holds again.
pub open spec fn spec_insert(m: CacheModel, key: u64, bytes: Seq<u8>, t: int) -> CacheModel {
    CacheModel {
        entries: spec_evict(insert_appended(m, key, bytes, t), m.capacity),
        clock: spec_eff_now(m.clock, t),
        ..m
    }
}

/// The `remove` transition: drop the entry for the key if present.
pub open spec fn spec_remove(m: CacheModel, key: u64) -> CacheModel {
    if contains_key(m.entries, key) {
        CacheModel { entries: m.entries.remove(index_of_key(m.entries, key)), ..m }
    } else {
        m
    }
}

/// The `clear` transition: drop every entry; configuration, clock and
/// counters stay.
pub open spec fn spec_clear(m: CacheModel) -> CacheModel {
    CacheModel { entries: Seq::empty(), ..m }
}

/// The predicate a sweep keeps: the entry is still live at time `eff`.
pub open spec fn live_pred(eff: int, ttl_ms: int, tti_ms: int) -> spec_fn(EntryModel) -> bool {
    |e: EntryModel| !spec_expired(e, eff, ttl_ms, tti_ms)
}

/// The periodic sweep transition: drop every entry that is expired at the
/// effective time, so idle or dead entries do not permanently occupy
/// capacity between accesses.
pub open spec fn spec_sweep(m: CacheModel, t: int) -> CacheModel {
    let eff = spec_eff_now(m.clock, t);
    CacheModel {
        entries: m.entries.filter(live_pred(eff, m.ttl_ms, m.tti_ms)),
        clock: eff,
        ..m
    }
}

// ---------------------------------------------------------------------------
// Facts about summed weights.
// ---------------------------------------------------------------------------

proof fn lemma_sum_nonneg(s: Seq<EntryModel>)
    ensures
        sum_weights(s) >= 0,
    decreases s.len(),
{
    if s.len() > 0 {
        lemma_sum_nonneg(s.drop_last());
    }
}

proof fn lemma_sum_push(s: Seq<EntryModel>, e: EntryModel)
    ensures
        sum_weights(s.push(e)) == sum_weights(s) + spec_weight(e.bytes),
{
    assert(s.push(e).drop_last() =~= s);
}

proof fn lemma_sum_remove(s: Seq<EntryModel>, i: int)
    requires
        0 <= i < s.len(),
    ensures
        sum_weights(s.remove(i)) == sum_weights(s) - spec_weight(s[i].bytes),
    decreases s.len(),
{
    if i == s.len() - 1 {
        assert(s.remove(i) =~= s.drop_last());
    } else {
        let r = s.remove(i);
        assert(r.drop_last() =~= s.drop_last().remove(i));
        assert(r.last() == s.last());
        lemma_sum_remove(s.drop_last(), i);
    }
}

proof fn lemma_sum_update(s: Seq<EntryModel>, i: int, e: EntryModel)
    requires
        0 <= i < s.len(),
    ensures
        sum_weights(s.update(i, e)) == sum_weights(s) - spec_weight(s[i].bytes) + spec_weight(
            e.bytes,
        ),
    decreases s.len(),
{
    let u = s.update(i, e);
    if i == s.len() - 1 {
        assert(u.drop_last() =~= s.drop_last());
        assert(u.last() == e);
    } else {
        assert(u.drop_last() =~= s.drop_last().update(i, e));
        assert(u.last() == s.last());
        lemma_sum_update(s.drop_last(), i, e);
    }
}

proof fn lemma_filter_props(s: Seq<EntryModel>, pred: spec_fn(EntryModel) -> bool, clock: int)
    requires
        unique_keys(s),
        times_bounded(s, clock),
    ensures
        sum_weights(s.filter(pred)) <= sum_weights(s),
        unique_keys(s.filter(pred)),
        times_bounded(s.filter(pred), clock),
    decreases s.len(),
{
    reveal(Seq::filter);
    if s.len() > 0 {
        let d = s.drop_last();
        assert(unique_keys(d) && times_bounded(d, clock)) by {
            assert(forall|i: int| 0 <= i < d.len() ==> d[i] == s[i]);
        }
        lemma_filter_props(d, pred, clock);
        lemma_filter_membership(d, pred);
        let f = d.filter(pred);
        lemma_sum_nonneg(f);
        if pred(s.last()) {
            lemma_sum_push(f, s.last());
            assert(spec_weight(s.last().bytes) >= 0);
            let out = f.push(s.last());
            assert forall|i: int, j: int| 0 <= i < j < out.len() implies (#[trigger] out[i]).key
                != (#[trigger] out[j]).key by {
                if j == out.len() - 1 {
                    let k = choose|k: int| 0 <= k < d.len() && d[k] == f[i];
                    assert(s[k] == f[i]);
                    assert(s[k].key != s[s.len() - 1].key);
                }
            }
            assert forall|i: int| 0 <= i < out.len() implies 0 <= (
            #[trigger] out[i]).inserted_at <= out[i].last_access <= clock by {}
        } else {
            assert(spec_weight(s.last().bytes) >= 0);
        }
    }
}

proof fn lemma_filter_membership(s: Seq<EntryModel>, pred: spec_fn(EntryModel) -> bool)
    ensures
        forall|j: int|
            0 <= j < s.filter(pred).len() ==> exists|k: int|
                0 <= k < s.len() && s[k] == #[trigger] s.filter(pred)[j],
    decreases s.len(),
{
    reveal(Seq::filter);
    if s.len() > 0 {
        let d = s.drop_last();
        lemma_filter_membership(d, pred);
        let f = d.filter(pred);
        assert forall|j: int| 0 <= j < s.filter(pred).len() implies exists|k: int|
            0 <= k < s.len() && s[k] == #[trigger] s.filter(pred)[j] by {
            if j < f.len() {
                let k = choose|k: int| 0 <= k < d.len() && d[k] == f[j];
                assert(s[k] == s.filter(pred)[j]);
            } else {
                assert(s[s.len() - 1] == s.filter(pred)[j]);
            }
        }
    }
}

// ---------------------------------------------------------------------------
// Facts about the eviction victim and the eviction loop.
// ---------------------------------------------------------------------------

proof fn lemma_victim_props(s: Seq<EntryModel>, n: int)
    requires
        1 <= n <= s.len(),
    ensures
        0 <= victim_upto(s, n) < n,
        forall|j: int| 0 <= j < n ==> lex_le(s[victim_upto(s, n)], #[trigger] s[j]),
        forall|j: int| 0 <= j < victim_upto(s, n) ==> lex_lt(s[victim_upto(s, n)], #[trigger] s[j]),
    decreases n,
{
    if n > 1 {
        lemma_victim_props(s, n - 1);
    }
}

proof fn lemma_remove_preserves(s: Seq<EntryModel>, i: int, clock: int)
    requires
        0 <= i < s.len(),
        unique_keys(s),
        times_bounded(s, clock),
    ensures
        unique_keys(s.remove(i)),
        times_bounded(s.remove(i), clock),
{
    let r = s.remove(i);
    assert forall|a: int, b: int| 0 <= a < b < r.len() implies (#[trigger] r[a]).key
        != (#[trigger] r[b]).key by {
        let a0 = if a < i { a } else { a + 1 };
        let b0 = if b < i { b } else { b + 1 };
        assert(r[a] == s[a0]);
        assert(r[b] == s[b0]);
    }
    assert forall|a: int| 0 <= a < r.len() implies 0 <= (#[trigger] r[a]).inserted_at
        <= r[a].last_access <= clock by {
        let a0 = if a < i { a } else { a + 1 };
        assert(r[a] == s[a0]);
    }
}

proof fn lemma_evict_wf(s: Seq<EntryModel>, cap: int, clock: int)
    requires
        cap >= 0,
        unique_keys(s),
        times_bounded(s, clock),
    ensures
        sum_weights(spec_evict(s, cap)) <= cap,
        unique_keys(spec_evict(s, cap)),
        times_bounded(spec_evict(s, cap), clock),
    decreases s.len(),
{
    if s.len() == 0 || sum_weights(s) <= cap {
    } else {
        let v = victim_idx(s);
        lemma_victim_props(s, s.len() as int);
        lemma_remove_preserves(s, v, clock);
        lemma_evict_wf(s.remove(v), cap, clock);
    }
}

/// Through the whole eviction loop, the most recent entry — the one at the
/// last position, which no other entry beats in the recency order, holding
/// a key found nowhere else — survives, stays last, and stays unique,
/// provided its own weight fits the capacity.
proof fn lemma_evict_keeps_top(s: Seq<EntryModel>, cap: int)
    requires
        s.len() > 0,
        spec_weight(s[s.len() - 1].bytes) <= cap,
        forall|j: int| 0 <= j < s.len() ==> lex_le(#[trigger] s[j], s[s.len() - 1]),
        forall|j: int| 0 <= j < s.len() - 1 ==> (#[trigger] s[j]).key != s[s.len() - 1].key,
    ensures
        spec_evict(s, cap).len() > 0,
        spec_evict(s, cap)[spec_evict(s, cap).len() - 1] == s[s.len() - 1],
        forall|j: int|
            0 <= j < spec_evict(s, cap).len() - 1 ==> (#[trigger] spec_evict(s, cap)[j]).key != s[
                s.len() - 1].key,
    decreases s.len(),
{
    if sum_weights(s) <= cap {
    } else {
        if s.len() == 1 {
            assert(s.drop_last() =~= Seq::<EntryModel>::empty());
            assert(sum_weights(s.drop_last()) == 0);
            assert(sum_weights(s) == sum_weights(s.drop_last()) + spec_weight(s.last().bytes));
            assert(sum_weights(s) == spec_weight(s[0].bytes));
            assert(false);
        } else {
            let v = victim_idx(s);
            lemma_victim_props(s, s.len() as int);
            if v == s.len() - 1 {
                assert(lex_lt(s[v], s[0]));
                assert(lex_le(s[0], s[v]));
                assert(false);
            }
            let r = s.remove(v);
            assert(r[r.len() - 1] == s[s.len() - 1]);
            assert forall|j: int| 0 <= j < r.len() implies lex_le(#[trigger] r[j], r[r.len() - 1]) by {
                let j0 = if j < v { j } else { j + 1 };
                assert(r[j] == s[j0]);
            }
            assert forall|j: int| 0 <= j < r.len() - 1 implies (#[trigger] r[j]).key != r[r.len()
                - 1].key by {
                let j0 = if j < v { j } else { j + 1 };
                assert(r[j] == s[j0]);
            }
            lemma_evict_keeps_top(r, cap);
        }
    }
}

/// Helper: with unique keys, the chosen index of a contained key is the one
/// and only index holding it.
proof fn lemma_index_of(s: Seq<EntryModel>, key: u64)
    requires
        unique_keys(s),
        contains_key(s, key),
    ensures
        0 <= index_of_key(s, key) < s.len(),
        s[index_of_key(s, key)].key == key,
        forall|j: int| 0 <= j < s.len() && (#[trigger] s[j]).key == key ==> j == index_of_key(
            s,
            key,
        ),
{
    let i = index_of_key(s, key);
    assert(0 <= i < s.len() && s[i].key == key);
}

/// Helper: the first two steps of the insert transition keep keys unique and
/// timestamps bounded by the effective time, and their weight sums relate as
/// expected.
proof fn lemma_appended_parts(m: CacheModel, key: u64, bytes: Seq<u8>, t: int)
    requires
        m.wf(),
        0 <= t <= u64::MAX,
    ensures
        unique_keys(insert_appended(m, key, bytes, t)),
        times_bounded(insert_appended(m, key, bytes, t), spec_eff_now(m.clock, t)),
        sum_weights(insert_base(m, key)) <= sum_weights(m.entries),
        sum_weights(insert_appended(m, key, bytes, t)) == sum_weights(insert_base(m, key))
            + spec_weight(bytes),
        forall|j: int|
            0 <= j < insert_base(m, key).len() ==> (#[trigger] insert_base(m, key)[j]).key != key,
{
    let eff = spec_eff_now(m.clock, t);
    let base = insert_base(m, key);
    let fresh = EntryModel { key, bytes, inserted_at: eff, last_access: eff };
    let appended = insert_appended(m, key, bytes, t);
    if contains_key(m.entries, key) {
        lemma_index_of(m.entries, key);
        let v = index_of_key(m.entries, key);
        lemma_remove_preserves(m.entries, v, m.clock);
        lemma_sum_remove(m.entries, v);
        assert forall|j: int| 0 <= j < base.len() implies (#[trigger] base[j]).key != key by {
            let j0 = if j < v {
                j
            } else {
                j + 1
            };
            assert(base[j] == m.entries[j0]);
        }
    }
    lemma_sum_push(base, fresh);
    assert(appended == base.push(fresh));
    assert forall|i: int, j: int| 0 <= i < j < appended.len() implies (#[trigger] appended[i]).key
        != (#[trigger] appended[j]).key by {
        if j < appended.len() - 1 {
            assert(appended[i] == base[i]);
            assert(appended[j] == base[j]);
        } else {
            assert(appended[j] == fresh);
            assert(appended[i] == base[i]);
        }
    }
    assert forall|i: int| 0 <= i < appended.len() implies 0 <= (#[trigger] appended[i]).inserted_at
        <= appended[i].last_access <= eff by {
        if i < appended.len() - 1 {
            assert(appended[i] == base[i]);
            assert(forall|k: int|
                0 <= k < base.len() ==> 0 <= (#[trigger] base[k]).inserted_at
                    <= base[k].last_access <= m.clock);
        }
    }
}

// ---------------------------------------------------------------------------
// The laws of the store, stated over the model.
// ---------------------------------------------------------------------------

/// The capacity invariant: whatever is inserted, at whatever time, the
/// summed weight of the entries is back within `max_capacity_bytes` by the
/// time the insert transition completes — the overshoot lives only inside
/// the transition.
pub proof fn lemma_insert_respects_capacity(m: CacheModel, key: u64, bytes: Seq<u8>, t: int)
    requires
        m.wf(),
        0 <= t <= u64::MAX,
    ensures
        sum_weights(spec_insert(m, key, bytes, t).entries) <= m.capacity,
        spec_insert(m, key, bytes, t).wf(),
{
    lemma_insert_wf(m, key, bytes, t);
}

/// The insert transition preserves well-formedness.
pub proof fn lemma_insert_wf(m: CacheModel, key: u64, bytes: Seq<u8>, t: int)
    requires
        m.wf(),
        0 <= t <= u64::MAX,
    ensures
        spec_insert(m, key, bytes, t).wf(),
        spec_insert(m, key, bytes, t).clock == spec_eff_now(m.clock, t),
{
    lemma_appended_parts(m, key, bytes, t);
    lemma_evict_wf(insert_appended(m, key, bytes, t), m.capacity, spec_eff_now(m.clock, t));
}

/// A value inserted for a key is returned byte-identical by a later hit:
/// if nothing else touches the store, the insert's entry fits the capacity
/// on its own, and neither expiry window has elapsed at the later read,
/// then `get` returns exactly the inserted bytes.
pub proof fn lemma_insert_then_get(m: CacheModel, key: u64, bytes: Seq<u8>, t: int, t2: int)
    requires
        m.wf(),
        m.clock <= t <= t2 <= u64::MAX,
        spec_weight(bytes) <= m.capacity,
        t2 - t < m.ttl_ms,
        t2 - t < m.tti_ms,
    ensures
        spec_get(spec_insert(m, key, bytes, t), key, t2).1 == Some(bytes),
{
    let eff = spec_eff_now(m.clock, t);
    assert(eff == t);
    let base = if contains_key(m.entries, key) {
        m.entries.remove(index_of_key(m.entries, key))
    } else {
        m.entries
    };
    if contains_key(m.entries, key) {
        lemma_index_of(m.entries, key);
        lemma_remove_preserves(m.entries, index_of_key(m.entries, key), m.clock);
    }
    let fresh = EntryModel { key, bytes, inserted_at: t, last_access: t };
    let appended = base.push(fresh);
    assert(appended[appended.len() - 1] == fresh);
    assert forall|j: int| 0 <= j < appended.len() implies lex_le(
        #[trigger] appended[j],
        appended[appended.len() - 1],
    ) by {
        if j < appended.len() - 1 {
            assert(appended[j] == base[j]);
            assert(forall|i: int|
                0 <= i < base.len() ==> 0 <= (#[trigger] base[i]).inserted_at
                    <= base[i].last_access <= m.clock);
        }
    }
    assert forall|j: int| 0 <= j < appended.len() - 1 implies (#[trigger] appended[j]).key
        != fresh.key by {
        assert(appended[j] == base[j]);
        if contains_key(m.entries, key) {
            lemma_index_of(m.entries, key);
            let v = index_of_key(m.entries, key);
            let j0 = if j < v {
                j
            } else {
                j + 1
            };
            assert(base[j] == m.entries[j0]);
        }
    }
    lemma_evict_keeps_top(appended, m.capacity);
    let m2 = spec_insert(m, key, bytes, t);
    let r = m2.entries;
    let last = r.len() - 1;
    assert(r[last] == fresh);
    assert(contains_key(r, key));
    let i2 = index_of_key(r, key);
    assert(0 <= i2 < r.len() && r[i2].key == key);
    assert(i2 == last) by {
        if i2 < last {
            assert(r[i2].key != fresh.key);
        }
    }
    let eff2 = spec_eff_now(m2.clock, t2);
    assert(eff2 == t2);
    assert(!spec_expired(fresh, t2, m.ttl_ms, m.tti_ms));
}

/// Time-to-live expiry: once an entry's age reaches the time-to-live, `get`
/// no longer returns it — at any such time, and however often it was
/// accessed before, since reads refresh only the last-access time, never
/// the insertion time.
pub proof fn lemma_ttl_expiry(m: CacheModel, key: u64, t: int)
    requires
        m.wf(),
        contains_key(m.entries, key) ==> t - m.entries[index_of_key(
            m.entries,
            key,
        )].inserted_at >= m.ttl_ms,
    ensures
        spec_get(m, key, t).1 is None,
{
    if contains_key(m.entries, key) {
        lemma_index_of(m.entries, key);
        let e = m.entries[index_of_key(m.entries, key)];
        assert(spec_eff_now(m.clock, t) >= t);
        assert(spec_expired(e, spec_eff_now(m.clock, t), m.ttl_ms, m.tti_ms));
    }
}

/// Time-to-idle expiry: once the time since an entry's last access reaches
/// the time-to-idle, `get` no longer returns it — even if its time-to-live
/// has not elapsed.
pub proof fn lemma_tti_expiry(m: CacheModel, key: u64, t: int)
    requires
        m.wf(),
        contains_key(m.entries, key) ==> t - m.entries[index_of_key(
            m.entries,
            key,
        )].last_access >= m.tti_ms,
    ensures
        spec_get(m, key, t).1 is None,
{
    if contains_key(m.entries, key) {
        lemma_index_of(m.entries, key);
        let e = m.entries[index_of_key(m.entries, key)];
        assert(spec_eff_now(m.clock, t) >= t);
        assert(spec_expired(e, spec_eff_now(m.clock, t), m.ttl_ms, m.tti_ms));
    }
}

/// The periodic sweep leaves no expired entry behind and preserves the
/// store's invariants: after it runs, only live entries occupy capacity.
pub proof fn lemma_sweep_removes_expired(m: CacheModel, t: int)
    requires
        m.wf(),
        0 <= t <= u64::MAX,
    ensures
        spec_sweep(m, t).wf(),
        forall|i: int|
            0 <= i < spec_sweep(m, t).entries.len() ==> !spec_expired(
                #[trigger] spec_sweep(m, t).entries[i],
                spec_eff_now(m.clock, t),
                m.ttl_ms,
                m.tti_ms,
            ),
{
    let eff = spec_eff_now(m.clock, t);
    let pred = live_pred(eff, m.ttl_ms, m.tti_ms);
    lemma_filter_props(m.entries, pred, m.clock);
    assert(times_bounded(m.entries.filter(pred), eff));
    assert forall|i: int| 0 <= i < spec_sweep(m, t).entries.len() implies !spec_expired(
        #[trigger] spec_sweep(m, t).entries[i],
        eff,
        m.ttl_ms,
        m.tti_ms,
    ) by {
        Seq::lemma_filter_pred(m.entries, pred, i);
    }
}

/// Reads never change an entry's insertion time: every entry that survives
/// a `get` keeps the insertion time it had before, so continuous access
/// cannot push the time-to-live out.
pub proof fn lemma_get_preserves_insertion_time(m: CacheModel, key: u64, t: int, k2: u64)
    requires
        m.wf(),
        contains_key(spec_get(m, key, t).0.entries, k2),
    ensures
        contains_key(m.entries, k2),
        spec_get(m, key, t).0.entries[index_of_key(spec_get(m, key, t).0.entries, k2)].inserted_at
            == m.entries[index_of_key(m.entries, k2)].inserted_at,
{
    let m2 = spec_get(m, key, t).0;
    let eff = spec_eff_now(m.clock, t);
    if contains_key(m.entries, key) {
        lemma_index_of(m.entries, key);
        let i = index_of_key(m.entries, key);
        let e = m.entries[i];
        if spec_expired(e, eff, m.ttl_ms, m.tti_ms) {
            lemma_remove_preserves(m.entries, i, m.clock);
            let j2 = index_of_key(m2.entries, k2);
            assert(0 <= j2 < m2.entries.len() && m2.entries[j2].key == k2);
            let j0 = if j2 < i { j2 } else { j2 + 1 };
            assert(m2.entries[j2] == m.entries[j0]);
            assert(contains_key(m.entries, k2));
            lemma_index_of(m.entries, k2);
            assert(j0 == index_of_key(m.entries, k2));
        } else {
            let u = m.entries.update(i, EntryModel { last_access: eff, ..e });
            assert(forall|j: int|
                0 <= j < u.len() ==> (#[trigger] u[j]).key == m.entries[j].key);
            assert forall|a: int, b: int| 0 <= a < b < u.len() implies (#[trigger] u[a]).key
                != (#[trigger] u[b]).key by {}
            let j2 = index_of_key(m2.entries, k2);
            assert(0 <= j2 < u.len() && u[j2].key == k2);
            assert(m.entries[j2].key == k2);
            assert(contains_key(m.entries, k2));
            lemma_index_of(m.entries, k2);
            assert(j2 == index_of_key(m.entries, k2));
            assert(u[j2].inserted_at == m.entries[j2].inserted_at);
        }
    }
}

/// The get transition preserves well-formedness.
pub proof fn lemma_get_wf(m: CacheModel, key: u64, t: int)
    requires
        m.wf(),
        0 <= t <= u64::MAX,
    ensures
        spec_get(m, key, t).0.wf(),
{
    let eff = spec_eff_now(m.clock, t);
    if contains_key(m.entries, key) {
        lemma_index_of(m.entries, key);
        let i = index_of_key(m.entries, key);
        let e = m.entries[i];
        if spec_expired(e, eff, m.ttl_ms, m.tti_ms) {
            lemma_remove_preserves(m.entries, i, m.clock);
            lemma_sum_remove(m.entries, i);
            lemma_sum_nonneg(m.entries.remove(i));
            assert(times_bounded(m.entries.remove(i), eff));
        } else {
            let e2 = EntryModel { last_access: eff, ..e };
            let u = m.entries.update(i, e2);
            lemma_sum_update(m.entries, i, e2);
            assert forall|a: int, b: int| 0 <= a < b < u.len() implies (#[trigger] u[a]).key
                != (#[trigger] u[b]).key by {
                assert(m.entries[a].key != m.entries[b].key);
            }
            assert(times_bounded(u, eff));
        }
    } else {
        assert(times_bounded(m.entries, eff));
    }
}


// ---------------------------------------------------------------------------
// The executable store.
// ---------------------------------------------------------------------------

/// One stored entry: the key, the bytes, and the two timestamps (in
/// milliseconds) that drive expiry and eviction.
struct Entry {
    key: u64,
    value: Vec<u8>,
    inserted_at: u64,
    last_access: u64,
}

impl View for Entry {
    type V = EntryModel;

    closed spec fn view(&self) -> EntryModel {
        EntryModel {
            key: self.key,
            bytes: self.value@,
            inserted_at: self.inserted_at as int,
            last_access: self.last_access as int,
        }
    }
}

spec fn entry_views(s: Seq<Entry>) -> Seq<EntryModel> {
    s.map_values(|e: Entry| e@)
}

/// A point-in-time snapshot of the store's statistics.  The hit rate is
/// reported as the two integer counters behind it; rendering a ratio is the
/// embedder's business.
#[derive(Clone, Copy, Debug, PartialEq, Eq, Structural)]
pub struct CacheStats {
    pub entry_count: u64,
    pub weighted_size: u64,
    pub max_capacity: u64,
    pub hits: u64,
    pub lookups: u64,
}

/// The byte-capacity-bounded key/value store with time-to-live and
/// time-to-idle expiry.
pub struct ImageCache {
    entries: Vec<Entry>,
    capacity: u64,
    ttl_ms: u64,
    tti_ms: u64,
    clock: u64,
    weighted: u64,
    hits: u64,
    lookups: u64,
}

impl View for ImageCache {
    type V = CacheModel;

    closed spec fn view(&self) -> CacheModel {
        CacheModel {
            entries: entry_views(self.entries@),
            capacity: self.capacity as int,
            ttl_ms: self.ttl_ms as int,
            tti_ms: self.tti_ms as int,
            clock: self.clock as int,
            hits: self.hits as int,
            lookups: self.lookups as int,
        }
    }
}

fn weight_of(value: &Vec<u8>) -> (r: u64)
    ensures
        r as int == spec_weight(value@),
{
    let n = value.len();
    if (n as u64) <= WEIGHT_CAP {
        n as u64
    } else {
        WEIGHT_CAP
    }
}

fn find_entry(entries: &Vec<Entry>, key: u64) -> (r: Option<usize>)
    ensures
        match r {
            Some(i) => i < entries@.len() && entry_views(entries@)[i as int].key == key,
            None => !contains_key(entry_views(entries@), key),
        },
{
    let n = entries.len();
    let mut i: usize = 0;
    while i < n
        invariant
            n == entries@.len(),
            0 <= i <= n,
            forall|j: int| 0 <= j < i ==> entry_views(entries@)[j].key != key,
        decreases n - i,
    {
        proof {
            assert(entry_views(entries@)[i as int] == entries@[i as int]@);
        }
        if entries[i].key == key {
            return Some(i);
        }
        i = i + 1;
    }
    None
}

fn find_victim(entries: &Vec<Entry>) -> (r: usize)
    requires
        entries@.len() > 0,
    ensures
        r < entries@.len(),
        r as int == victim_idx(entry_views(entries@)),
{
    let n = entries.len();
    let mut best: usize = 0;
    let mut j: usize = 1;
    while j < n
        invariant
            1 <= j <= n,
            n == entries@.len(),
            best < j,
            best as int == victim_upto(entry_views(entries@), j as int),
        decreases n - j,
    {
        proof {
            assert(entry_views(entries@)[j as int] == entries@[j as int]@);
            assert(entry_views(entries@)[best as int] == entries@[best as int]@);
        }
        let cand_la = entries[j].last_access;
        let cand_ins = entries[j].inserted_at;
        let best_la = entries[best].last_access;
        let best_ins = entries[best].inserted_at;
        if cand_la < best_la || (cand_la == best_la && cand_ins < best_ins) {
            best = j;
        }
        j = j + 1;
    }
    best
}

impl ImageCache {
    /// Executable well-formedness: the model invariant, plus the store's
    /// running weight total agreeing with the model's summed weight.
    pub closed spec fn wf(&self) -> bool {
        &&& self@.wf()
        &&& self.weighted as int == sum_weights(self@.entries)
    }

    /// An executable-well-formed store satisfies the model invariant.
    pub proof fn lemma_wf_model(&self)
        requires
            self.wf(),
        ensures
            self@.wf(),
    {
    }

    /// Builds an empty store from the configuration, converting megabytes to
    /// bytes and seconds to milliseconds.  Rejects — with
    /// `CapacityConfigError`, the only construction-time failure — a zero
    /// capacity and values so large that the byte capacity or a millisecond
    /// window would not fit the accounting.
    pub fn new(config: CacheConfig) -> (r: Result<ImageCache, ImageError>)
        ensures
            r is Ok <==> (1 <= config.max_capacity_mb <= MAX_CAPACITY_MB
                && config.time_to_live_sec <= MAX_EXPIRY_SEC && config.time_to_idle_sec
                <= MAX_EXPIRY_SEC),
            r matches Err(e) ==> e == ImageError::CapacityConfigError,
            r matches Ok(c) ==> c.wf() && c@ == (CacheModel {
                entries: Seq::<EntryModel>::empty(),
                capacity: config.max_capacity_mb * BYTES_PER_MB,
                ttl_ms: config.time_to_live_sec * 1000,
                tti_ms: config.time_to_idle_sec * 1000,
                clock: 0,
                hits: 0,
                lookups: 0,
            }),
    {
        if config.max_capacity_mb < 1 || config.max_capacity_mb > MAX_CAPACITY_MB
            || config.time_to_live_sec > MAX_EXPIRY_SEC || config.time_to_idle_sec
            > MAX_EXPIRY_SEC {
            return Err(ImageError::CapacityConfigError);
        }
        let c = ImageCache {
            entries: Vec::new(),
            capacity: config.max_capacity_mb * BYTES_PER_MB,
            ttl_ms: config.time_to_live_sec * 1000,
            tti_ms: config.time_to_idle_sec * 1000,
            clock: 0,
            weighted: 0,
            hits: 0,
            lookups: 0,
        };
        proof {
            assert(entry_views(c.entries@) =~= Seq::<EntryModel>::empty());
        }
        Ok(c)
    }

    /// Looks a key up at time `now_ms`.  A live entry is returned
    /// byte-identical to what was inserted for the key, and its last-access
    /// time — never its insertion time — is refreshed.  A miss and an expired
    /// entry both return nothing and are indistinguishable to the caller; an
    /// expired entry is dropped on the spot.
    pub fn get(&mut self, key: &CacheKey, now_ms: u64) -> (r: Option<Vec<u8>>)
        requires
            old(self).wf(),
        ensures
            final(self).wf(),
            final(self)@ == spec_get(old(self)@, key.0, now_ms as int).0,
            match r {
                Some(v) => spec_get(old(self)@, key.0, now_ms as int).1 == Some(v@),
                None => spec_get(old(self)@, key.0, now_ms as int).1 is None,
            },
    {
        let ghost m0 = self@;
        let eff = if now_ms > self.clock {
            now_ms
        } else {
            self.clock
        };
        self.clock = eff;
        self.lookups = if self.lookups < u64::MAX {
            self.lookups + 1
        } else {
            self.lookups
        };
        proof {
            lemma_get_wf(m0, key.0, now_ms as int);
        }
        match find_entry(&self.entries, key.0) {
            None => {
                proof {
                    assert(self@ =~= spec_get(m0, key.0, now_ms as int).0);
                }
                None
            },
            Some(i) => {
                proof {
                    assert(contains_key(m0.entries, key.0));
                    lemma_index_of(m0.entries, key.0);
                    assert(index_of_key(m0.entries, key.0) == i as int);
                    assert(entry_views(self.entries@)[i as int] == self.entries@[i as int]@);
                }
                let ins = self.entries[i].inserted_at;
                let la = self.entries[i].last_access;
                if eff - ins >= self.ttl_ms || eff - la >= self.tti_ms {
                    let dead = self.entries.remove(i);
                    let w = weight_of(&dead.value);
                    proof {
                        lemma_sum_remove(m0.entries, i as int);
                        assert(entry_views(self.entries@) =~= m0.entries.remove(i as int));
                        lemma_sum_nonneg(entry_views(self.entries@));
                    }
                    self.weighted = self.weighted - w;
                    proof {
                        assert(self@ =~= spec_get(m0, key.0, now_ms as int).0);
                    }
                    None
                } else {
                    let mut e = self.entries.remove(i);
                    let out = e.value.clone();
                    proof {
                        assert forall|k: int| 0 <= k < out@.len() implies out@[k] == e.value@[k] by {
                            assert(cloned::<u8>(e.value@[k], out@[k]));
                        }
                        assert(out@ =~= e.value@);
                    }
                    e.last_access = eff;
                    self.entries.insert(i, e);
                    self.hits = if self.hits < u64::MAX {
                        self.hits + 1
                    } else {
                        self.hits
                    };
                    proof {
                        let e2 = EntryModel { last_access: eff as int, ..m0.entries[i as int] };
                        assert(entry_views(self.entries@) =~= m0.entries.update(i as int, e2));
                        assert(self@ =~= spec_get(m0, key.0, now_ms as int).0);
                        lemma_sum_update(m0.entries, i as int, e2);
                    }
                    Some(out)
                }
            },
        }
    }

    /// Inserts a value at time `now_ms`, fully replacing any prior entry for
    /// the key (fresh insertion and last-access times, fresh weight), then
    /// evicts least-recently-used entries until the summed weight is back
    /// within the capacity — so the bound already holds again when the call
    /// returns, whatever was inserted.
    pub fn insert(&mut self, key: &CacheKey, value: Vec<u8>, now_ms: u64)
        requires
            old(self).wf(),
        ensures
            final(self).wf(),
            final(self)@ == spec_insert(old(self)@, key.0, value@, now_ms as int),
            sum_weights(final(self)@.entries) <= final(self)@.capacity,
    {
        let ghost m0 = self@;
        let ghost vbytes = value@;
        let eff = if now_ms > self.clock {
            now_ms
        } else {
            self.clock
        };
        self.clock = eff;
        proof {
            lemma_appended_parts(m0, key.0, vbytes, now_ms as int);
        }
        match find_entry(&self.entries, key.0) {
            Some(i) => {
                proof {
                    assert(contains_key(m0.entries, key.0));
                    lemma_index_of(m0.entries, key.0);
                    assert(index_of_key(m0.entries, key.0) == i as int);
                    lemma_sum_remove(m0.entries, i as int);
                }
                let dead = self.entries.remove(i);
                let w_old = weight_of(&dead.value);
                proof {
                    assert(entry_views(self.entries@) =~= m0.entries.remove(i as int));
                    lemma_sum_nonneg(entry_views(self.entries@));
                }
                self.weighted = self.weighted - w_old;
            },
            None => {},
        }
        proof {
            assert(entry_views(self.entries@) =~= insert_base(m0, key.0));
        }
        let w = weight_of(&value);
        let e = Entry { key: key.0, value, inserted_at: eff, last_access: eff };
        self.entries.push(e);
        proof {
            assert(entry_views(self.entries@) =~= insert_appended(m0, key.0, vbytes, now_ms as int));
            lemma_sum_push(insert_base(m0, key.0), e@);
        }
        self.weighted = self.weighted + w;
        let ghost appended = entry_views(self.entries@);
        while self.weighted > self.capacity
            invariant
                self.capacity as int == m0.capacity,
                self.ttl_ms as int == m0.ttl_ms,
                self.tti_ms as int == m0.tti_ms,
                self.hits as int == m0.hits,
                self.lookups as int == m0.lookups,
                self.clock as int == spec_eff_now(m0.clock, now_ms as int),
                unique_keys(entry_views(self.entries@)),
                times_bounded(entry_views(self.entries@), self.clock as int),
                self.weighted as int == sum_weights(entry_views(self.entries@)),
                spec_evict(entry_views(self.entries@), m0.capacity) == spec_evict(
                    appended,
                    m0.capacity,
                ),
            decreases self.entries.len(),
        {
            let ghost cur = entry_views(self.entries@);
            proof {
                if self.entries@.len() == 0 {
                    assert(cur =~= Seq::<EntryModel>::empty());
                    assert(sum_weights(cur) == 0);
                    assert(false);
                }
                lemma_victim_props(cur, cur.len() as int);
            }
            let v = find_victim(&self.entries);
            let dead = self.entries.remove(v);
            let wd = weight_of(&dead.value);
            proof {
                lemma_sum_remove(cur, v as int);
                lemma_remove_preserves(cur, v as int, self.clock as int);
                assert(entry_views(self.entries@) =~= cur.remove(v as int));
                lemma_sum_nonneg(entry_views(self.entries@));
            }
            self.weighted = self.weighted - wd;
        }
        proof {
            let cur = entry_views(self.entries@);
            assert(spec_evict(cur, m0.capacity) == cur);
            assert(self@ =~= spec_insert(m0, key.0, vbytes, now_ms as int));
        }
    }

    /// Removes the entry for a key; a no-op — idempotent — when the key is
    /// absent.
    pub fn remove(&mut self, key: &CacheKey)
        requires
            old(self).wf(),
        ensures
            final(self).wf(),
            final(self)@ == spec_remove(old(self)@, key.0),
    {
        let ghost m0 = self@;
        match find_entry(&self.entries, key.0) {
            Some(i) => {
                proof {
                    assert(contains_key(m0.entries, key.0));
                    lemma_index_of(m0.entries, key.0);
                    assert(index_of_key(m0.entries, key.0) == i as int);
                    lemma_sum_remove(m0.entries, i as int);
                }
                let dead = self.entries.remove(i);
                let w_old = weight_of(&dead.value);
                proof {
                    assert(entry_views(self.entries@) =~= m0.entries.remove(i as int));
                    lemma_sum_nonneg(entry_views(self.entries@));
                    lemma_remove_preserves(m0.entries, i as int, m0.clock);
                }
                self.weighted = self.weighted - w_old;
                proof {
                    assert(self@ =~= spec_remove(m0, key.0));
                }
            },
            None => {
                proof {
                    assert(self@ =~= spec_remove(m0, key.0));
                }
            },
        }
    }

    /// Removes every entry.  Configuration, clock and counters stay.
    pub fn clear(&mut self)
        requires
            old(self).wf(),
        ensures
            final(self).wf(),
            final(self)@ == spec_clear(old(self)@),
    {
        let ghost m0 = self@;
        self.entries = Vec::new();
        self.weighted = 0;
        proof {
            assert(entry_views(self.entries@) =~= Seq::<EntryModel>::empty());
            assert(self@ =~= spec_clear(m0));
        }
    }

    /// The periodic sweep: walks the store once at time `now_ms` and drops
    /// every entry that is expired by then, so idle or dead entries do not
    /// permanently occupy capacity while nothing accesses them.  An
    /// embedder's background task calls this between requests.
    pub fn evict_expired(&mut self, now_ms: u64)
        requires
            old(self).wf(),
        ensures
            final(self).wf(),
            final(self)@ == spec_sweep(old(self)@, now_ms as int),
    {
        let ghost m0 = self@;
        let eff = if now_ms > self.clock {
            now_ms
        } else {
            self.clock
        };
        self.clock = eff;
        let ghost orig = m0.entries;
        let ghost pred = live_pred(eff as int, m0.ttl_ms, m0.tti_ms);
        let ghost n = orig.len() as int;
        let mut i: usize = 0;
        let ghost mut k: int = 0;
        proof {
            reveal(Seq::filter);
            assert(orig.subrange(0, 0) =~= Seq::<EntryModel>::empty());
            assert(entry_views(self.entries@) =~= orig.subrange(0, 0).filter(pred) + orig.subrange(
                0,
                n,
            ));
        }
        while i < self.entries.len()
            invariant
                0 <= k <= n,
                n == orig.len(),
                self.capacity as int == m0.capacity,
                self.ttl_ms as int == m0.ttl_ms,
                self.tti_ms as int == m0.tti_ms,
                self.hits as int == m0.hits,
                self.lookups as int == m0.lookups,
                self.clock as int == spec_eff_now(m0.clock, now_ms as int),
                eff as int == spec_eff_now(m0.clock, now_ms as int),
                pred == live_pred(eff as int, m0.ttl_ms, m0.tti_ms),
                times_bounded(orig, eff as int),
                entry_views(self.entries@) == orig.subrange(0, k).filter(pred) + orig.subrange(
                    k,
                    n,
                ),
                i as int == orig.subrange(0, k).filter(pred).len(),
                self.weighted as int == sum_weights(entry_views(self.entries@)),
            decreases n - k,
        {
            let ghost cur = entry_views(self.entries@);
            let ghost kept = orig.subrange(0, k).filter(pred);
            proof {
                assert(cur.len() == kept.len() + (n - k));
                assert(k < n);
                assert(cur[i as int] == orig.subrange(k, n)[0]);
                assert(cur[i as int] == orig[k]);
                assert(entry_views(self.entries@)[i as int] == self.entries@[i as int]@);
                reveal(Seq::filter);
                assert(orig.subrange(0, k + 1).drop_last() =~= orig.subrange(0, k));
                assert(orig.subrange(0, k + 1).last() == orig[k]);
            }
            let ins = self.entries[i].inserted_at;
            let la = self.entries[i].last_access;
            if eff - ins >= self.ttl_ms || eff - la >= self.tti_ms {
                let dead = self.entries.remove(i);
                let w = weight_of(&dead.value);
                proof {
                    assert(!pred(orig[k]));
                    lemma_sum_remove(cur, i as int);
                    assert(entry_views(self.entries@) =~= cur.remove(i as int));
                    assert(entry_views(self.entries@) =~= orig.subrange(0, k + 1).filter(pred)
                        + orig.subrange(k + 1, n));
                    lemma_sum_nonneg(entry_views(self.entries@));
                }
                self.weighted = self.weighted - w;
            } else {
                proof {
                    assert(pred(orig[k]));
                    assert(orig.subrange(0, k + 1).filter(pred) =~= kept.push(orig[k]));
                    assert(entry_views(self.entries@) =~= orig.subrange(0, k + 1).filter(pred)
                        + orig.subrange(k + 1, n));
                }
                i = i + 1;
            }
            proof {
                k = k + 1;
            }
        }
        proof {
            assert(k == n) by {
                assert(entry_views(self.entries@).len() == orig.subrange(0, k).filter(pred).len() + (
                n - k));
            }
            assert(orig.subrange(0, n) =~= orig);
            assert(entry_views(self.entries@) =~= orig.filter(pred) + orig.subrange(n, n));
            assert(orig.subrange(n, n) =~= Seq::<EntryModel>::empty());
            assert(entry_views(self.entries@) =~= orig.filter(pred));
            assert(self@ =~= spec_sweep(m0, now_ms as int));
            lemma_filter_props(orig, pred, m0.clock);
        }
    }

    /// The number of live entries held right now.
    pub fn entry_count(&self) -> (r: u64)
        ensures
            r as int == self@.entries.len() as int,
    {
        self.entries.len() as u64
    }

    /// The summed weight of the entries held right now.
    pub fn weighted_size(&self) -> (r: u64)
        requires
            self.wf(),
        ensures
            r as int == sum_weights(self@.entries),
    {
        self.weighted
    }

    /// A statistics snapshot: entry count, used and maximum weight, and the
    /// hit/lookup counters.
    pub fn get_stats(&self) -> (r: CacheStats)
        requires
            self.wf(),
        ensures
            r.entry_count as int == self@.entries.len() as int,
            r.weighted_size as int == sum_weights(self@.entries),
            r.max_capacity as int == self@.capacity,
            r.hits as int == self@.hits,
            r.lookups as int == self@.lookups,
    {
        CacheStats {
            entry_count: self.entries.len() as u64,
            weighted_size: self.weighted,
            max_capacity: self.capacity,
            hits: self.hits,
            lookups: self.lookups,
        }
    }
}

} // verus!
