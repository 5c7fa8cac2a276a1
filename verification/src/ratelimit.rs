//! Multi-bucket rate limiting: each bucket keeps a per-key counter with a
//! window; a key is denied when any bucket denies it.

use vstd::prelude::*;
use crate::text::{dec_chars, u64_to_string};

verus! {

/// A denial: the bucket that fired and the time left until it would allow.
#[derive(Debug, Clone)]
pub struct RateLimited {
    pub bucket: String,
    pub remaining_ms: u64,
}

impl RateLimited {
    pub fn new(bucket: String, remaining_ms: u64) -> (r: RateLimited)
        ensures
            r.bucket@ == bucket@,
            r.remaining_ms == remaining_ms,
    {
        RateLimited { bucket, remaining_ms }
    }

    /// A human-readable account of the denial.
    pub fn message(&self) -> (r: String)
        ensures
            r@ == "Exceeded the bucket "@ + self.bucket@ + ". Try again in "@ + dec_chars(
                self.remaining_ms as nat,
            ) + " ms."@,
    {
        let mut m = String::from_str("Exceeded the bucket ");
        m.append(self.bucket.as_str());
        m.append(". Try again in ");
        m.append(u64_to_string(self.remaining_ms).as_str());
        m.append(" ms.");
        m
    }
}

/// Milliseconds passed since `t`, zero when the clock reads earlier.
pub open spec fn spec_elapsed(now: u64, t: u64) -> u64 {
    if now >= t {
        (now - t) as u64
    } else {
        0
    }
}

/// The entry of a key: its window start and its count.
pub open spec fn lookup_entry(s: Seq<(u128, u64, u32)>, key: u128) -> Option<(u64, u32)>
    decreases s.len(),
{
    if s.len() == 0 {
        None
    } else if s[0].0 == key {
        Some((s[0].1, s[0].2))
    } else {
        lookup_entry(s.drop_first(), key)
    }
}

/// Position of a key's entry.
pub open spec fn index_of_key(s: Seq<(u128, u64, u32)>, key: u128) -> int
    decreases s.len(),
{
    if s.len() == 0 {
        0
    } else if s[0].0 == key {
        0
    } else {
        1 + index_of_key(s.drop_first(), key)
    }
}

/// Whether one bucket allows a call of the key at this time: a missing or
/// expired entry resets and allows, a count below the bound allows.
pub open spec fn bucket_allows(
    s: Seq<(u128, u64, u32)>,
    key: u128,
    now: u64,
    max_count: u32,
    window: u64,
) -> bool {
    match lookup_entry(s, key) {
        None => true,
        Some((t, c)) => spec_elapsed(now, t) >= window || c < max_count,
    }
}

/// The bucket's entries after one call of the key.
pub open spec fn bucket_after(
    s: Seq<(u128, u64, u32)>,
    key: u128,
    now: u64,
    max_count: u32,
    window: u64,
) -> Seq<(u128, u64, u32)> {
    match lookup_entry(s, key) {
        None => s.push((key, now, 1)),
        Some((t, c)) => if spec_elapsed(now, t) >= window {
            s.update(index_of_key(s, key), (key, now, 1))
        } else if c < max_count {
            s.update(index_of_key(s, key), (key, now, (c + 1) as u32))
        } else {
            s
        },
    }
}

/// Entries that outlived their window are gone after a sweep.
pub open spec fn pump_spec(s: Seq<(u128, u64, u32)>, now: u64, window: u64) -> Seq<
    (u128, u64, u32),
>
    decreases s.len(),
{
    if s.len() == 0 {
        s
    } else if spec_elapsed(now, s[0].1) < window {
        seq![s[0]] + pump_spec(s.drop_first(), now, window)
    } else {
        pump_spec(s.drop_first(), now, window)
    }
}

/// One named bucket: a per-key counter bounded by `max_count` within a
/// window of `window_ms` milliseconds.
pub struct RateLimitBucket {
    name: String,
    max_count: u32,
    window_ms: u64,
    entries: Vec<(u128, u64, u32)>,
}

impl RateLimitBucket {
    pub closed spec fn spec_name(&self) -> Seq<char> {
        self.name@
    }

    pub closed spec fn spec_max_count(&self) -> u32 {
        self.max_count
    }

    pub closed spec fn spec_window_ms(&self) -> u64 {
        self.window_ms
    }

    pub closed spec fn spec_entries(&self) -> Seq<(u128, u64, u32)> {
        self.entries@
    }

    pub fn new(name: String, max_count: u32, window_ms: u64) -> (r: RateLimitBucket)
        ensures
            r.spec_name() == name@,
            r.spec_max_count() == max_count,
            r.spec_window_ms() == window_ms,
            r.spec_entries().len() == 0,
    {
        RateLimitBucket { name, max_count, window_ms, entries: Vec::new() }
    }

    fn find_key(&self, key: u128) -> (r: Option<usize>)
        ensures
            match r {
                Some(i) => 0 <= i < self.spec_entries().len() && i == index_of_key(
                    self.spec_entries(),
                    key,
                ) && Some((self.spec_entries()[i as int].1, self.spec_entries()[i as int].2))
                    == lookup_entry(self.spec_entries(), key) && self.spec_entries()[i as int].0
                    == key,
                None => lookup_entry(self.spec_entries(), key) is None,
            },
    {
        let ghost s = self.spec_entries();
        let mut k: usize = 0;
        proof {
            assert(s.subrange(0, s.len() as int) =~= s);
        }
        while k < self.entries.len()
            invariant
                s == self.spec_entries(),
                k <= s.len(),
                lookup_entry(s, key) == lookup_entry(
                    s.subrange(k as int, s.len() as int),
                    key,
                ),
                index_of_key(s, key) == k + index_of_key(
                    s.subrange(k as int, s.len() as int),
                    key,
                ),
                forall|i: int| 0 <= i < k ==> (#[trigger] s[i]).0 != key,
            decreases s.len() - k,
        {
            let ghost tail = s.subrange(k as int, s.len() as int);
            proof {
                assert(tail[0] == s[k as int]);
                assert(tail.drop_first() =~= s.subrange(k + 1, s.len() as int));
            }
            if self.entries[k].0 == key {
                return Some(k);
            }
            k += 1;
        }
        proof {
            assert(s.subrange(k as int, s.len() as int).len() == 0);
        }
        None
    }

    /// Accounts one call of the key at time `now_ms`: `None` allows it, a
    /// denial names the bucket and the time left in the window.
    pub fn ratelimit(&mut self, key: u128, now_ms: u64) -> (r: Option<RateLimited>)
        ensures
            final(self).spec_name() == old(self).spec_name(),
            final(self).spec_max_count() == old(self).spec_max_count(),
            final(self).spec_window_ms() == old(self).spec_window_ms(),
            r is None <==> bucket_allows(
                old(self).spec_entries(),
                key,
                now_ms,
                old(self).spec_max_count(),
                old(self).spec_window_ms(),
            ),
            final(self).spec_entries() == bucket_after(
                old(self).spec_entries(),
                key,
                now_ms,
                old(self).spec_max_count(),
                old(self).spec_window_ms(),
            ),
            r matches Some(l) ==> l.bucket@ == old(self).spec_name() && ({
                let e = lookup_entry(old(self).spec_entries(), key)->Some_0;
                l.remaining_ms == old(self).spec_window_ms() - spec_elapsed(now_ms, e.0)
            }),
    {
        match self.find_key(key) {
            None => {
                self.entries.push((key, now_ms, 1));
                None
            },
            Some(i) => {
                let (_, t, c) = self.entries[i];
                let elapsed = if now_ms >= t {
                    now_ms - t
                } else {
                    0
                };
                if elapsed >= self.window_ms {
                    let ghost s = self.spec_entries();
                    self.entries.remove(i);
                    self.entries.insert(i, (key, now_ms, 1));
                    proof {
                        assert(self.spec_entries() =~= s.update(i as int, (key, now_ms, 1u32)));
                    }
                    None
                } else if c < self.max_count {
                    let ghost s = self.spec_entries();
                    self.entries.remove(i);
                    self.entries.insert(i, (key, now_ms, c + 1));
                    proof {
                        assert(self.spec_entries() =~= s.update(
                            i as int,
                            (key, now_ms, (c + 1) as u32),
                        ));
                    }
                    None
                } else {
                    Some(RateLimited::new(clone_string(&self.name), self.window_ms - elapsed))
                }
            },
        }
    }

    /// Sweeps out the entries whose window has fully passed.
    pub fn pump_limits(&mut self, now_ms: u64)
        ensures
            final(self).spec_name() == old(self).spec_name(),
            final(self).spec_max_count() == old(self).spec_max_count(),
            final(self).spec_window_ms() == old(self).spec_window_ms(),
            final(self).spec_entries() == pump_spec(
                old(self).spec_entries(),
                now_ms,
                old(self).spec_window_ms(),
            ),
    {
        let ghost s = self.spec_entries();
        let mut kept: Vec<(u128, u64, u32)> = Vec::new();
        let mut k: usize = 0;
        proof {
            assert(s.subrange(0, s.len() as int) =~= s);
        }
        while k < self.entries.len()
            invariant
                s == self.entries@,
                self.window_ms == old(self).spec_window_ms(),
                k <= s.len(),
                kept@ + pump_spec(s.subrange(k as int, s.len() as int), now_ms, self.window_ms)
                    =~= pump_spec(s, now_ms, self.window_ms),
            decreases s.len() - k,
        {
            let ghost tail = s.subrange(k as int, s.len() as int);
            proof {
                assert(tail[0] == s[k as int]);
                assert(tail.drop_first() =~= s.subrange(k + 1, s.len() as int));
            }
            let (ekey, t, c) = self.entries[k];
            let elapsed = if now_ms >= t {
                now_ms - t
            } else {
                0
            };
            if elapsed < self.window_ms {
                kept.push((ekey, t, c));
            }
            proof {
                assert(kept@ + pump_spec(
                    s.subrange(k + 1, s.len() as int),
                    now_ms,
                    self.window_ms,
                ) =~= pump_spec(s, now_ms, self.window_ms));
            }
            k += 1;
        }
        proof {
            assert(s.subrange(k as int, s.len() as int).len() == 0);
            assert(kept@ =~= pump_spec(s, now_ms, self.window_ms));
        }
        self.entries = kept;
    }
}

fn clone_string(s: &String) -> (r: String)
    ensures
        r@ == s@,
{
    s.clone()
}

/// The bucket whose denial a limiter reports: the last one that denies.
pub open spec fn last_denier(bs: Seq<RateLimitBucket>, key: u128, now: u64) -> Option<int>
    decreases bs.len(),
{
    if bs.len() == 0 {
        None
    } else if !bucket_allows(
        bs.last().spec_entries(),
        key,
        now,
        bs.last().spec_max_count(),
        bs.last().spec_window_ms(),
    ) {
        Some(bs.len() - 1)
    } else {
        last_denier(bs.drop_last(), key, now)
    }
}

/// A limiter over several buckets: a key passes only when every bucket
/// allows it; the reported denial is the last bucket that denied.
pub struct RateLimiter {
    buckets: Vec<RateLimitBucket>,
}

impl RateLimiter {
    pub closed spec fn spec_buckets(&self) -> Seq<RateLimitBucket> {
        self.buckets@
    }

    pub fn new(buckets: Vec<RateLimitBucket>) -> (r: RateLimiter)
        ensures
            r.spec_buckets() == buckets@,
    {
        RateLimiter { buckets }
    }

    /// Accounts one call of the key in every bucket. The call is allowed
    /// exactly when every bucket allows it.
    pub fn ratelimit(&mut self, key: u128, now_ms: u64) -> (r: Option<RateLimited>)
        ensures
            final(self).spec_buckets().len() == old(self).spec_buckets().len(),
            forall|i: int|
                0 <= i < old(self).spec_buckets().len() ==> {
                    let b = #[trigger] old(self).spec_buckets()[i];
                    let nb = final(self).spec_buckets()[i];
                    &&& nb.spec_name() == b.spec_name()
                    &&& nb.spec_max_count() == b.spec_max_count()
                    &&& nb.spec_window_ms() == b.spec_window_ms()
                    &&& nb.spec_entries() == bucket_after(
                        b.spec_entries(),
                        key,
                        now_ms,
                        b.spec_max_count(),
                        b.spec_window_ms(),
                    )
                },
            r is None <==> forall|i: int|
                0 <= i < old(self).spec_buckets().len() ==> bucket_allows(
                    (#[trigger] old(self).spec_buckets()[i]).spec_entries(),
                    key,
                    now_ms,
                    old(self).spec_buckets()[i].spec_max_count(),
                    old(self).spec_buckets()[i].spec_window_ms(),
                ),
            r matches Some(l) ==> ({
                let bs = old(self).spec_buckets();
                &&& last_denier(bs, key, now_ms) is Some
                &&& ({
                    let b = bs[last_denier(bs, key, now_ms)->Some_0];
                    let e = lookup_entry(b.spec_entries(), key)->Some_0;
                    l.bucket@ == b.spec_name() && l.remaining_ms == b.spec_window_ms()
                        - spec_elapsed(now_ms, e.0)
                })
            }),
    {
        let ghost bs = self.spec_buckets();
        let mut result: Option<RateLimited> = None;
        let mut k: usize = 0;
        proof {
            assert(bs.subrange(0, 0) =~= Seq::<RateLimitBucket>::empty());
        }
        while k < self.buckets.len()
            invariant
                self.spec_buckets().len() == bs.len(),
                k <= bs.len(),
                forall|i: int|
                    k <= i < bs.len() ==> #[trigger] self.spec_buckets()[i] == bs[i],
                forall|i: int|
                    0 <= i < k ==> {
                        let b = #[trigger] bs[i];
                        let nb = self.spec_buckets()[i];
                        &&& nb.spec_name() == b.spec_name()
                        &&& nb.spec_max_count() == b.spec_max_count()
                        &&& nb.spec_window_ms() == b.spec_window_ms()
                        &&& nb.spec_entries() == bucket_after(
                            b.spec_entries(),
                            key,
                            now_ms,
                            b.spec_max_count(),
                            b.spec_window_ms(),
                        )
                    },
                result is None <==> forall|i: int|
                    0 <= i < k ==> bucket_allows(
                        (#[trigger] bs[i]).spec_entries(),
                        key,
                        now_ms,
                        bs[i].spec_max_count(),
                        bs[i].spec_window_ms(),
                    ),
                result matches Some(l) ==> ({
                    let p = bs.subrange(0, k as int);
                    &&& last_denier(p, key, now_ms) is Some
                    &&& ({
                        let b = p[last_denier(p, key, now_ms)->Some_0];
                        let e = lookup_entry(b.spec_entries(), key)->Some_0;
                        l.bucket@ == b.spec_name() && l.remaining_ms == b.spec_window_ms()
                            - spec_elapsed(now_ms, e.0)
                    })
                }),
            decreases bs.len() - k,
        {
            let mut bucket = self.buckets.remove(k);
            let limited = bucket.ratelimit(key, now_ms);
            self.buckets.insert(k, bucket);
            proof {
                assert(self.spec_buckets()[k as int].spec_entries() == bucket_after(
                    bs[k as int].spec_entries(),
                    key,
                    now_ms,
                    bs[k as int].spec_max_count(),
                    bs[k as int].spec_window_ms(),
                ));
                let p = bs.subrange(0, k as int);
                let q = bs.subrange(0, k + 1);
                assert(q.drop_last() =~= p);
                assert(q.last() == bs[k as int]);
                if last_denier(p, key, now_ms) is Some {
                    lemma_last_denier_prefix(p, key, now_ms);
                }
                if last_denier(q, key, now_ms) is Some {
                    lemma_last_denier_prefix(q, key, now_ms);
                }
            }
            if limited.is_some() {
                result = limited;
            }
            k += 1;
        }
        proof {
            assert(bs.subrange(0, bs.len() as int) =~= bs);
        }
        result
    }

    /// Sweeps every bucket.
    pub fn pump_limits(&mut self, now_ms: u64)
        ensures
            final(self).spec_buckets().len() == old(self).spec_buckets().len(),
            forall|i: int|
                0 <= i < old(self).spec_buckets().len() ==> {
                    let b = #[trigger] old(self).spec_buckets()[i];
                    let nb = final(self).spec_buckets()[i];
                    &&& nb.spec_name() == b.spec_name()
                    &&& nb.spec_max_count() == b.spec_max_count()
                    &&& nb.spec_window_ms() == b.spec_window_ms()
                    &&& nb.spec_entries() == pump_spec(
                        b.spec_entries(),
                        now_ms,
                        b.spec_window_ms(),
                    )
                },
    {
        let ghost bs = self.spec_buckets();
        let mut k: usize = 0;
        while k < self.buckets.len()
            invariant
                self.spec_buckets().len() == bs.len(),
                k <= bs.len(),
                forall|i: int|
                    k <= i < bs.len() ==> #[trigger] self.spec_buckets()[i] == bs[i],
                forall|i: int|
                    0 <= i < k ==> {
                        let b = #[trigger] bs[i];
                        let nb = self.spec_buckets()[i];
                        &&& nb.spec_name() == b.spec_name()
                        &&& nb.spec_max_count() == b.spec_max_count()
                        &&& nb.spec_window_ms() == b.spec_window_ms()
                        &&& nb.spec_entries() == pump_spec(
                            b.spec_entries(),
                            now_ms,
                            b.spec_window_ms(),
                        )
                    },
            decreases bs.len() - k,
        {
            let mut bucket = self.buckets.remove(k);
            bucket.pump_limits(now_ms);
            self.buckets.insert(k, bucket);
            k += 1;
        }
    }
}

/// The reported denier lies within the buckets.
proof fn lemma_last_denier_prefix(bs: Seq<RateLimitBucket>, key: u128, now: u64)
    requires
        last_denier(bs, key, now) is Some,
    ensures
        0 <= last_denier(bs, key, now)->Some_0 < bs.len(),
        !bucket_allows(
            bs[last_denier(bs, key, now)->Some_0].spec_entries(),
            key,
            now,
            bs[last_denier(bs, key, now)->Some_0].spec_max_count(),
            bs[last_denier(bs, key, now)->Some_0].spec_window_ms(),
        ),
    decreases bs.len(),
{
    if bs.len() > 0 && bucket_allows(
        bs.last().spec_entries(),
        key,
        now,
        bs.last().spec_max_count(),
        bs.last().spec_window_ms(),
    ) {
        lemma_last_denier_prefix(bs.drop_last(), key, now);
        assert(bs.drop_last()[last_denier(bs.drop_last(), key, now)->Some_0] == bs[last_denier(
            bs.drop_last(),
            key,
            now,
        )->Some_0]);
    }
}

/// The outcomes of a sequence of calls of one key, given the key's entry.
pub open spec fn spec_run(
    entry: Option<(u64, u32)>,
    times: Seq<u64>,
    max_count: u32,
    window: u64,
) -> Seq<bool>
    decreases times.len(),
{
    if times.len() == 0 {
        seq![]
    } else {
        let now = times[0];
        match entry {
            None => seq![true] + spec_run(Some((now, 1)), times.drop_first(), max_count, window),
            Some((t, c)) => if spec_elapsed(now, t) >= window {
                seq![true] + spec_run(Some((now, 1)), times.drop_first(), max_count, window)
            } else if c < max_count {
                seq![true] + spec_run(
                    Some((now, (c + 1) as u32)),
                    times.drop_first(),
                    max_count,
                    window,
                )
            } else {
                seq![false] + spec_run(Some((t, c)), times.drop_first(), max_count, window)
            },
        }
    }
}

/// A run has one outcome per call.
proof fn lemma_run_len(entry: Option<(u64, u32)>, times: Seq<u64>, max_count: u32, window: u64)
    ensures
        spec_run(entry, times, max_count, window).len() == times.len(),
    decreases times.len(),
{
    if times.len() > 0 {
        let now = times[0];
        match entry {
            None => {
                lemma_run_len(Some((now, 1)), times.drop_first(), max_count, window);
            },
            Some((t, c)) => {
                if spec_elapsed(now, t) >= window {
                    lemma_run_len(Some((now, 1)), times.drop_first(), max_count, window);
                } else if c < max_count {
                    lemma_run_len(
                        Some((now, (c + 1) as u32)),
                        times.drop_first(),
                        max_count,
                        window,
                    );
                } else {
                    lemma_run_len(Some((t, c)), times.drop_first(), max_count, window);
                }
            },
        }
    }
}

/// Within one window, a fresh key is admitted exactly `max_count` times: a
/// run of calls at nondecreasing times that all fall before the first
/// call's window closes allows call `i` exactly when `i < max_count`.
pub proof fn lemma_single_window_admits(times: Seq<u64>, max_count: u32, window: u64)
    requires
        times.len() > 0,
        max_count >= 1,
        forall|i: int, j: int| 0 <= i <= j < times.len() ==> times[i] <= times[j],
        times.last() < times[0] + window,
    ensures
        forall|i: int|
            0 <= i < times.len() ==> (#[trigger] spec_run(None, times, max_count, window)[i] <==> i
                < max_count),
{
    let run = spec_run(None, times, max_count, window);
    assert(run == seq![true] + spec_run(
        Some((times[0], 1)),
        times.drop_first(),
        max_count,
        window,
    ));
    lemma_window_run(times.drop_first(), times[0], times[0], 1, max_count, window);
    let rest = spec_run(Some((times[0], 1)), times.drop_first(), max_count, window);
    lemma_run_len(Some((times[0], 1)), times.drop_first(), max_count, window);
    assert forall|i: int|
        0 <= i < times.len() implies (#[trigger] run[i] <==> i < max_count) by {
        if i > 0 {
            assert((seq![true] + rest)[i] == rest[i - 1]);
            assert(run[i] == rest[i - 1]);
            assert(times.drop_first()[i - 1] == times[i]);
        }
    }
}

/// Generalized run: with an entry of count `c` whose time lies between the
/// window origin and the next call, call `i` of the run is allowed exactly
/// when `c + i < max_count`.
proof fn lemma_window_run(
    times: Seq<u64>,
    origin: u64,
    te: u64,
    c: u32,
    max_count: u32,
    window: u64,
)
    requires
        1 <= c,
        origin <= te,
        forall|i: int| 0 <= i < times.len() ==> te <= #[trigger] times[i],
        forall|i: int, j: int| 0 <= i <= j < times.len() ==> times[i] <= times[j],
        forall|i: int| 0 <= i < times.len() ==> #[trigger] times[i] < origin + window,
    ensures
        forall|i: int|
            0 <= i < times.len() ==> (#[trigger] spec_run(
                Some((te, c)),
                times,
                max_count,
                window,
            )[i] <==> c + i < max_count),
    decreases times.len(),
{
    if times.len() > 0 {
        let now = times[0];
        let run = spec_run(Some((te, c)), times, max_count, window);
        assert(spec_elapsed(now, te) < window);
        if c < max_count {
            lemma_window_run(times.drop_first(), origin, now, (c + 1) as u32, max_count, window);
            let rest = spec_run(Some((now, (c + 1) as u32)), times.drop_first(), max_count, window);
            lemma_run_len(Some((now, (c + 1) as u32)), times.drop_first(), max_count, window);
            assert(run == seq![true] + rest);
            assert forall|i: int|
                0 <= i < times.len() implies (#[trigger] run[i] <==> c + i < max_count) by {
                if i > 0 {
                    assert((seq![true] + rest)[i] == rest[i - 1]);
                    assert(run[i] == rest[i - 1]);
                    assert(times.drop_first()[i - 1] == times[i]);
                }
            }
        } else {
            lemma_window_run(times.drop_first(), origin, te, c, max_count, window);
            let rest = spec_run(Some((te, c)), times.drop_first(), max_count, window);
            lemma_run_len(Some((te, c)), times.drop_first(), max_count, window);
            assert(run == seq![false] + rest);
            assert forall|i: int|
                0 <= i < times.len() implies (#[trigger] run[i] <==> c + i < max_count) by {
                if i > 0 {
                    assert((seq![false] + rest)[i] == rest[i - 1]);
                    assert(run[i] == rest[i - 1]);
                    assert(times.drop_first()[i - 1] == times[i]);
                }
            }
        }
    }
}

} // verus!
