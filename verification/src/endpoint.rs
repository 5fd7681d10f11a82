//! Per-endpoint state: the inferred status of one endpoint of the remote
//! API, plus the rate-limit buckets most recently advertised for it.
//!
//! All clock readings come in as arguments: instants from a monotonic clock
//! in milliseconds (`now_millis`), observation timestamps from the server's
//! `Date` header in milliseconds since the epoch (`observation_millis`).

use vstd::prelude::*;

verus! {

/// Longest cooldown the exponential backoff may reach: one hour, in
/// milliseconds.
pub const MAX_COOLDOWN_MILLIS: u64 = 3_600_000;

/// Stopgap cooldown used after a 429 when nothing is known about the
/// endpoints involved: fifteen seconds, in milliseconds.
pub const DEFAULT_COOLDOWN_MILLIS: u64 = 15_000;

/// A running cooldown: when it began (monotonic clock, milliseconds) and
/// how long it is estimated to last.  The estimate is heuristic; a query
/// after expiry may still be refused by the server.
#[derive(Debug, PartialEq, Eq, Structural, Clone, Copy)]
pub struct CooldownState {
    /// Monotonic instant at which the cooldown began.
    pub start_millis: u64,
    /// Estimated length of the cooldown.
    pub duration_millis: u64,
}

impl CooldownState {
    /// Milliseconds still to wait at instant `now_millis`:
    /// `max(0, duration - (now - start))`.
    pub open spec fn spec_time_left(self, now_millis: u64) -> u64 {
        let elapsed: int = if now_millis >= self.start_millis {
            now_millis - self.start_millis
        } else {
            0
        };
        if elapsed >= self.duration_millis {
            0
        } else {
            (self.duration_millis - elapsed) as u64
        }
    }

    /// Builds a cooldown that starts at the given instant.
    pub fn new(start_millis: u64, duration_millis: u64) -> (cd: CooldownState)
        ensures
            cd == (CooldownState { start_millis, duration_millis }),
    {
        CooldownState { start_millis, duration_millis }
    }

    /// How much of the cooldown remains at `now_millis`; `None` once
    /// nothing remains.
    pub fn time_left(&self, now_millis: u64) -> (r: Option<u64>)
        ensures
            r == (if self.spec_time_left(now_millis) == 0 {
                Option::<u64>::None
            } else {
                Option::Some(self.spec_time_left(now_millis))
            }),
    {
        let elapsed = if now_millis >= self.start_millis {
            now_millis - self.start_millis
        } else {
            0
        };
        if elapsed >= self.duration_millis {
            None
        } else {
            Some(self.duration_millis - elapsed)
        }
    }

    /// Whether the cooldown has run out at `now_millis` (elapsed time has
    /// reached the estimated duration).  Expiry does not promise the next
    /// call will succeed; it marks the moment a probe is worth sending.
    pub fn is_expired(&self, now_millis: u64) -> (r: bool)
        ensures
            r == (self.spec_time_left(now_millis) == 0),
    {
        self.time_left(now_millis).is_none()
    }
}

/// The latest guess at the state of one endpoint.  This is not real-time
/// knowledge of the server; it is deduced from the responses seen so far.
#[derive(Debug, PartialEq, Eq, Structural, Clone, Copy)]
pub enum Status {
    /// Never observed; a query doubles as a probe.
    Unknown,
    /// Free to send.
    Normal,
    /// Refuse queries locally until the cooldown runs out.
    Cooldown(CooldownState),
    /// A cooldown just ran out; one probe is allowed, and a 429 in reply
    /// doubles the previous duration (carried here).
    JustOffCooldown(u64),
}

/// One advertised rate-limit window: up to `max_count` requests per
/// `window_seconds`, with the most recently reported `count` and the
/// estimated start of the current window.
#[derive(Debug, PartialEq, Eq, Structural, Clone, Copy)]
pub struct RateLimitBucket {
    /// Window length in seconds; the key of the bucket.
    pub window_seconds: u64,
    /// Most recently observed request count within the window.
    pub count: u64,
    /// Requests allowed per window before the server rate-limits.
    pub max_count: u64,
    /// Estimated start of the current window, epoch milliseconds.
    pub window_start_millis: i64,
}

/// A window length in seconds converted to milliseconds, saturating at the
/// top of the `u64` range.
pub open spec fn spec_millis_of_seconds(seconds: u64) -> u64 {
    if seconds * 1000 <= u64::MAX {
        (seconds * 1000) as u64
    } else {
        u64::MAX
    }
}

/// A window length in seconds converted to milliseconds, saturating.
pub fn millis_of_seconds(seconds: u64) -> (r: u64)
    ensures
        r == spec_millis_of_seconds(seconds),
{
    if seconds <= u64::MAX / 1000 {
        seconds * 1000
    } else {
        u64::MAX
    }
}

/// The cooldown duration after one more 429 during a probe: twice the
/// previous duration, capped at [`MAX_COOLDOWN_MILLIS`].
pub open spec fn spec_doubled_capped(duration_millis: u64) -> u64 {
    if 2 * duration_millis <= MAX_COOLDOWN_MILLIS {
        (2 * duration_millis) as u64
    } else {
        MAX_COOLDOWN_MILLIS
    }
}

/// Status after the pre-send check at instant `now_millis`: an expired
/// cooldown turns into `JustOffCooldown` with the old duration; everything
/// else stays put.
pub open spec fn spec_pre_query_step(status: Status, now_millis: u64) -> Status {
    match status {
        Status::Cooldown(cd) => {
            if cd.spec_time_left(now_millis) == 0 {
                Status::JustOffCooldown(cd.duration_millis)
            } else {
                status
            }
        },
        _ => status,
    }
}

/// Status after a 429 at instant `now_millis`: a probe that was just off
/// cooldown goes back on cooldown for twice the previous duration (capped);
/// other states are left for the table-level policy to handle.
pub open spec fn spec_status_429_step(status: Status, now_millis: u64) -> Status {
    match status {
        Status::JustOffCooldown(d) => Status::Cooldown(
            CooldownState { start_millis: now_millis, duration_millis: spec_doubled_capped(d) },
        ),
        _ => status,
    }
}

/// The smallest window length among the full buckets of the table
/// (`count == max_count`), or `None` when no bucket is full.
pub open spec fn min_full_window(s: Seq<RateLimitBucket>) -> Option<u64>
    decreases s.len(),
{
    if s.len() == 0 {
        None
    } else {
        let rest = min_full_window(s.drop_last());
        let b = s.last();
        if b.count == b.max_count {
            match rest {
                None => Some(b.window_seconds),
                Some(m) => if b.window_seconds < m {
                    Some(b.window_seconds)
                } else {
                    Some(m)
                },
            }
        } else {
            rest
        }
    }
}

/// Order on `(headroom, window)` pairs: less headroom first, shorter
/// window on ties.
pub open spec fn lex_le(a: (u64, u64), b: (u64, u64)) -> bool {
    a.0 < b.0 || (a.0 == b.0 && a.1 <= b.1)
}

/// The `(headroom, window)` pair that is most likely to trip the rate
/// limit: smallest remaining headroom `max_count - count` over all
/// buckets, ties broken by the shorter window.  `None` when the table is
/// empty.  Meaningful only for well-formed tables (`count <= max_count`).
pub open spec fn min_headroom_pair(s: Seq<RateLimitBucket>) -> Option<(u64, u64)>
    decreases s.len(),
{
    if s.len() == 0 {
        None
    } else {
        let rest = min_headroom_pair(s.drop_last());
        let b = s.last();
        let p = ((b.max_count - b.count) as u64, b.window_seconds);
        match rest {
            None => Some(p),
            Some(q) => if lex_le(q, p) {
                Some(q)
            } else {
                Some(p)
            },
        }
    }
}

/// The bucket table folded into a map keyed by window length; later
/// entries win.
pub open spec fn bmap_of(s: Seq<RateLimitBucket>) -> Map<u64, RateLimitBucket>
    decreases s.len(),
{
    if s.len() == 0 {
        Map::empty()
    } else {
        bmap_of(s.drop_last()).insert(s.last().window_seconds, s.last())
    }
}

/// Some bucket in the sequence has the given window length.
pub open spec fn has_window(s: Seq<RateLimitBucket>, window: u64) -> bool {
    exists|i: int| 0 <= i < s.len() && (#[trigger] s[i]).window_seconds == window
}

/// Window lengths are pairwise distinct: the sequence really is a keyed
/// table.
pub open spec fn windows_distinct(s: Seq<RateLimitBucket>) -> bool {
    forall|i: int, j: int|
        0 <= i < j < s.len() ==> (#[trigger] s[i]).window_seconds != (#[trigger] s[j]).window_seconds
}

proof fn lemma_bmap_dom(s: Seq<RateLimitBucket>, window: u64)
    ensures
        bmap_of(s).dom().contains(window) <==> has_window(s, window),
    decreases s.len(),
{
    if s.len() > 0 {
        lemma_bmap_dom(s.drop_last(), window);
        if s.last().window_seconds == window {
            assert(s[s.len() - 1].window_seconds == window);
        } else {
            if has_window(s, window) {
                let i = choose|i: int| 0 <= i < s.len() && (#[trigger] s[i]).window_seconds
                    == window;
                assert(s.drop_last()[i] == s[i]);
                assert(has_window(s.drop_last(), window));
            }
            if has_window(s.drop_last(), window) {
                let i = choose|i: int|
                    0 <= i < s.drop_last().len() && (#[trigger] s.drop_last()[i]).window_seconds
                        == window;
                assert(s[i] == s.drop_last()[i]);
                assert(has_window(s, window));
            }
        }
    }
}

proof fn lemma_bmap_index(s: Seq<RateLimitBucket>, i: int)
    requires
        windows_distinct(s),
        0 <= i < s.len(),
    ensures
        bmap_of(s).dom().contains(s[i].window_seconds),
        bmap_of(s)[s[i].window_seconds] == s[i],
    decreases s.len(),
{
    if i == s.len() - 1 {
    } else {
        assert(s.drop_last()[i] == s[i]);
        lemma_bmap_index(s.drop_last(), i);
        assert(s[i].window_seconds != s.last().window_seconds);
    }
}

proof fn lemma_bmap_push(s: Seq<RateLimitBucket>, b: RateLimitBucket)
    ensures
        bmap_of(s.push(b)) == bmap_of(s).insert(b.window_seconds, b),
{
    assert(s.push(b).drop_last() =~= s);
    assert(s.push(b).last() == b);
}

proof fn lemma_bmap_update(s: Seq<RateLimitBucket>, i: int, b: RateLimitBucket)
    requires
        windows_distinct(s),
        0 <= i < s.len(),
        b.window_seconds == s[i].window_seconds,
    ensures
        bmap_of(s.update(i, b)) =~= bmap_of(s).insert(b.window_seconds, b),
        windows_distinct(s.update(i, b)),
    decreases s.len(),
{
    let t = s.update(i, b);
    assert forall|k: int, l: int| 0 <= k < l < t.len() implies (#[trigger] t[k]).window_seconds
        != (#[trigger] t[l]).window_seconds by {
        assert(t[k].window_seconds == s[k].window_seconds);
        assert(t[l].window_seconds == s[l].window_seconds);
    }
    if i == s.len() - 1 {
        assert(t.drop_last() =~= s.drop_last());
        assert(t.last() == b);
        assert(bmap_of(t) =~= bmap_of(s).insert(b.window_seconds, b));
    } else {
        assert(t.drop_last() =~= s.drop_last().update(i, b));
        assert(s.drop_last()[i] == s[i]);
        lemma_bmap_update(s.drop_last(), i, b);
        assert(t.last() == s.last());
        assert(b.window_seconds != s.last().window_seconds);
        assert(bmap_of(t) =~= bmap_of(s).insert(b.window_seconds, b));
    }
}

/// Pairs `(value, window)` parsed from one rate-limit header, folded into
/// a map from window length to value; later entries win, as they do when
/// the pairs are inserted one by one into a keyed table.
pub open spec fn pairs_by_window(pairs: Seq<(u64, u64)>) -> Map<u64, u64>
    decreases pairs.len(),
{
    if pairs.len() == 0 {
        Map::empty()
    } else {
        pairs_by_window(pairs.drop_last()).insert(pairs.last().1, pairs.last().0)
    }
}

/// Some pair in the sequence carries the given window length.
pub open spec fn pairs_have_window(pairs: Seq<(u64, u64)>, window: u64) -> bool {
    exists|i: int| 0 <= i < pairs.len() && (#[trigger] pairs[i]).1 == window
}

pub proof fn lemma_pairs_by_window(pairs: Seq<(u64, u64)>, window: u64)
    ensures
        pairs_by_window(pairs).dom().contains(window) <==> pairs_have_window(pairs, window),
        pairs_by_window(pairs).dom().contains(window) ==> exists|i: int|
            0 <= i < pairs.len() && (#[trigger] pairs[i]).1 == window && pairs[i].0
                == pairs_by_window(pairs)[window],
    decreases pairs.len(),
{
    if pairs.len() > 0 {
        lemma_pairs_by_window(pairs.drop_last(), window);
        if pairs.last().1 == window {
            assert(pairs[pairs.len() - 1].1 == window);
            assert(pairs[pairs.len() - 1].0 == pairs_by_window(pairs)[window]);
        } else {
            if pairs_have_window(pairs, window) {
                let i = choose|i: int| 0 <= i < pairs.len() && (#[trigger] pairs[i]).1 == window;
                assert(pairs.drop_last()[i] == pairs[i]);
                assert(pairs_have_window(pairs.drop_last(), window));
            }
            if pairs_have_window(pairs.drop_last(), window) {
                let i = choose|i: int|
                    0 <= i < pairs.drop_last().len() && (#[trigger] pairs.drop_last()[i]).1
                        == window;
                assert(pairs[i] == pairs.drop_last()[i]);
                assert(pairs_have_window(pairs, window));
            }
            if pairs_by_window(pairs).dom().contains(window) {
                let i = choose|i: int|
                    0 <= i < pairs.drop_last().len() && (#[trigger] pairs.drop_last()[i]).1
                        == window && pairs.drop_last()[i].0 == pairs_by_window(
                        pairs.drop_last(),
                    )[window];
                assert(pairs[i] == pairs.drop_last()[i]);
            }
        }
    }
}

/// The bucket table rebuilt from one observation: every advertised window
/// gets a bucket whose limit is the advertised limit, whose count is the
/// advertised count (zero when the count header does not mention the
/// window), and whose window start is the observation timestamp.
pub open spec fn spec_rebuilt_buckets(
    limits: Seq<(u64, u64)>,
    counts: Seq<(u64, u64)>,
    observation_millis: i64,
) -> Map<u64, RateLimitBucket> {
    Map::new(
        |w: u64| pairs_by_window(limits).dom().contains(w),
        |w: u64|
            RateLimitBucket {
                window_seconds: w,
                count: if pairs_by_window(counts).dom().contains(w) {
                    pairs_by_window(counts)[w]
                } else {
                    0
                },
                max_count: pairs_by_window(limits)[w],
                window_start_millis: observation_millis,
            },
    )
}

/// Finds the bucket with the given window length, if any.
fn find_window(buckets: &Vec<RateLimitBucket>, window: u64) -> (r: Option<usize>)
    ensures
        match r {
            Some(i) => i < buckets@.len() && buckets@[i as int].window_seconds == window,
            None => !has_window(buckets@, window),
        },
{
    let mut i: usize = 0;
    while i < buckets.len()
        invariant
            i <= buckets@.len(),
            forall|j: int| 0 <= j < i ==> (#[trigger] buckets@[j]).window_seconds != window,
        decreases buckets@.len() - i,
    {
        if buckets[i].window_seconds == window {
            return Some(i);
        }
        i += 1;
    }
    None
}

/// The state of one endpoint: its inferred status, its rate-limit bucket
/// table keyed by window length, and the timestamp of the newest
/// observation folded in.
#[derive(Debug)]
pub struct Endpoint {
    status: Status,
    buckets: Vec<RateLimitBucket>,
    last_update_millis: i64,
}

impl Endpoint {
    /// The inferred status.
    pub closed spec fn spec_status(self) -> Status {
        self.status
    }

    /// The bucket table as a sequence, in insertion order.
    pub closed spec fn bucket_seq(self) -> Seq<RateLimitBucket> {
        self.buckets@
    }

    /// Timestamp (epoch milliseconds) of the newest observation folded in.
    pub closed spec fn spec_last_update(self) -> i64 {
        self.last_update_millis
    }

    /// The bucket table as a map from window length to bucket.
    pub open spec fn bmap(self) -> Map<u64, RateLimitBucket> {
        bmap_of(self.bucket_seq())
    }

    /// Well-formedness: the bucket table is keyed by window length (no
    /// duplicates), every count is within its limit, and every window is
    /// positive.
    pub open spec fn spec_wf(self) -> bool {
        &&& windows_distinct(self.bucket_seq())
        &&& forall|i: int|
            0 <= i < self.bucket_seq().len() ==> {
                let b = #[trigger] self.bucket_seq()[i];
                b.count <= b.max_count && b.window_seconds > 0
            }
    }

    /// Transfers well-formedness from the sequence to the map: every entry
    /// sits under its own window length, counts stay within limits, and
    /// windows are positive.
    pub proof fn lemma_wf_bmap(self)
        requires
            self.spec_wf(),
        ensures
            forall|w: u64| #[trigger]
                self.bmap().dom().contains(w) ==> self.bmap()[w].window_seconds == w
                    && self.bmap()[w].count <= self.bmap()[w].max_count && w > 0,
    {
        assert forall|w: u64| #[trigger] self.bmap().dom().contains(w) implies self.bmap()[w]
            .window_seconds == w && self.bmap()[w].count <= self.bmap()[w].max_count && w
            > 0 by {
            lemma_bmap_dom(self.bucket_seq(), w);
            let i = choose|i: int|
                0 <= i < self.bucket_seq().len() && (#[trigger] self.bucket_seq()[i])
                    .window_seconds == w;
            lemma_bmap_index(self.bucket_seq(), i);
        }
    }

    /// A fresh endpoint: never observed, no bucket data, last update at
    /// the start of the epoch.
    pub fn new() -> (e: Endpoint)
        ensures
            e.spec_status() == Status::Unknown,
            e.bucket_seq() == Seq::<RateLimitBucket>::empty(),
            e.bmap() == Map::<u64, RateLimitBucket>::empty(),
            e.spec_last_update() == 0,
            e.spec_wf(),
    {
        Endpoint { status: Status::Unknown, buckets: Vec::new(), last_update_millis: 0 }
    }

    /// The current status.
    pub fn status(&self) -> (r: Status)
        ensures
            r == self.spec_status(),
    {
        self.status
    }

    /// How many buckets the table holds.
    pub fn bucket_count(&self) -> (r: usize)
        ensures
            r == self.bucket_seq().len(),
    {
        self.buckets.len()
    }

    /// The bucket for a window length, if the table holds one.
    pub fn bucket(&self, window: u64) -> (r: Option<RateLimitBucket>)
        requires
            self.spec_wf(),
        ensures
            r == (if self.bmap().dom().contains(window) {
                Some(self.bmap()[window])
            } else {
                Option::<RateLimitBucket>::None
            }),
    {
        match find_window(&self.buckets, window) {
            Some(i) => {
                proof {
                    lemma_bmap_index(self.bucket_seq(), i as int);
                    lemma_bmap_dom(self.bucket_seq(), window);
                }
                Some(self.buckets[i])
            },
            None => {
                proof {
                    lemma_bmap_dom(self.bucket_seq(), window);
                }
                None
            },
        }
    }

    /// The timestamp of the newest observation folded into the buckets.
    pub fn last_update_time(&self) -> (r: i64)
        ensures
            r == self.spec_last_update(),
    {
        self.last_update_millis
    }

    /// Rebuilds the bucket table from one observation: `limits` holds
    /// `(limit, window)` pairs from the limit header, `counts` holds
    /// `(count, window)` pairs from the count header, and
    /// `observation_millis` is the server timestamp of the response that
    /// carried them.  Every advertised window gets a bucket; counts land
    /// in the bucket with their window.  The caller must make sure the
    /// observation is not older than the last one folded in, that every
    /// counted window was advertised, that counts stay within their
    /// limits, and that windows are positive.
    pub fn update_buckets(
        &mut self,
        limits: &Vec<(u64, u64)>,
        counts: &Vec<(u64, u64)>,
        observation_millis: i64,
    )
        requires
            old(self).spec_wf(),
            observation_millis >= old(self).spec_last_update(),
            forall|i: int| 0 <= i < limits@.len() ==> (#[trigger] limits@[i]).1 > 0,
            forall|i: int|
                0 <= i < counts@.len() ==> pairs_by_window(limits@).dom().contains(
                    (#[trigger] counts@[i]).1,
                ),
            forall|i: int|
                0 <= i < counts@.len() ==> (#[trigger] counts@[i]).0 <= pairs_by_window(
                    limits@,
                )[counts@[i].1],
        ensures
            final(self).spec_wf(),
            final(self).spec_status() == old(self).spec_status(),
            final(self).spec_last_update() == observation_millis,
            final(self).bmap() =~= spec_rebuilt_buckets(limits@, counts@, observation_millis),
            forall|w: u64| #[trigger]
                final(self).bmap().dom().contains(w) ==> final(self).bmap()[w].count
                    <= final(self).bmap()[w].max_count,
    {
        let mut fresh: Vec<RateLimitBucket> = Vec::new();

        let mut idx: usize = 0;
        while idx < limits.len()
            invariant
                idx <= limits@.len(),
                windows_distinct(fresh@),
                forall|i: int|
                    0 <= i < fresh@.len() ==> {
                        let b = #[trigger] fresh@[i];
                        b.count == 0 && b.window_start_millis == observation_millis
                            && b.window_seconds > 0
                    },
                bmap_of(fresh@) =~= spec_rebuilt_buckets(
                    limits@.take(idx as int),
                    Seq::<(u64, u64)>::empty(),
                    observation_millis,
                ),
                forall|i: int| 0 <= i < limits@.len() ==> (#[trigger] limits@[i]).1 > 0,
            decreases limits@.len() - idx,
        {
            let pair = limits[idx];
            let limit = pair.0;
            let window = pair.1;
            let ghost prefix = limits@.take(idx as int);
            let ghost prev = fresh@;
            match find_window(&fresh, window) {
                Some(i) => {
                    let b = fresh[i];
                    let nb = RateLimitBucket {
                        window_seconds: b.window_seconds,
                        count: b.count,
                        max_count: limit,
                        window_start_millis: b.window_start_millis,
                    };
                    fresh[i] = nb;
                    proof {
                        lemma_bmap_update(prev, i as int, nb);
                    }
                },
                None => {
                    let nb = RateLimitBucket {
                        window_seconds: window,
                        count: 0,
                        max_count: limit,
                        window_start_millis: observation_millis,
                    };
                    fresh.push(nb);
                    proof {
                        lemma_bmap_push(prev, nb);
                        assert forall|k: int, l: int| 0 <= k < l < fresh@.len() implies (
                        #[trigger] fresh@[k]).window_seconds != (#[trigger] fresh@[l])
                            .window_seconds by {
                            if l == fresh@.len() - 1 {
                                assert(prev[k] == fresh@[k]);
                            } else {
                                assert(prev[k] == fresh@[k]);
                                assert(prev[l] == fresh@[l]);
                            }
                        }
                    }
                },
            }
            proof {
                assert(limits@.take(idx + 1).drop_last() =~= prefix);
                assert(limits@.take(idx + 1).last() == limits@[idx as int]);
                assert(pairs_by_window(limits@.take(idx + 1)) == pairs_by_window(prefix).insert(
                    window,
                    limit,
                ));
                assert(bmap_of(fresh@) =~= spec_rebuilt_buckets(
                    limits@.take(idx + 1),
                    Seq::<(u64, u64)>::empty(),
                    observation_millis,
                ));
            }
            idx += 1;
        }
        proof {
            assert(limits@.take(limits@.len() as int) =~= limits@);
        }

        self.buckets = fresh;

        let mut cdx: usize = 0;
        while cdx < counts.len()
            invariant
                cdx <= counts@.len(),
                self.status == old(self).status,
                self.last_update_millis == old(self).last_update_millis,
                windows_distinct(self.buckets@),
                bmap_of(self.buckets@) =~= spec_rebuilt_buckets(
                    limits@,
                    counts@.take(cdx as int),
                    observation_millis,
                ),
                forall|i: int|
                    0 <= i < counts@.len() ==> pairs_by_window(limits@).dom().contains(
                        (#[trigger] counts@[i]).1,
                    ),
            decreases counts@.len() - cdx,
        {
            let pair = counts[cdx];
            let new_count = pair.0;
            let window = pair.1;
            let ghost prefix = counts@.take(cdx as int);
            let ghost prev = self.buckets@;
            proof {
                assert(pairs_by_window(limits@).dom().contains(window));
                assert(bmap_of(prev).dom().contains(window));
                lemma_bmap_dom(prev, window);
            }
            match find_window(&self.buckets, window) {
                Some(i) => {
                    let b = self.buckets[i];
                    let start = if b.count > new_count {
                        observation_millis
                    } else {
                        b.window_start_millis
                    };
                    let nb = RateLimitBucket {
                        window_seconds: b.window_seconds,
                        count: new_count,
                        max_count: b.max_count,
                        window_start_millis: start,
                    };
                    self.buckets[i] = nb;
                    proof {
                        lemma_bmap_index(prev, i as int);
                        lemma_bmap_update(prev, i as int, nb);
                        assert(counts@.take(cdx + 1).drop_last() =~= prefix);
                        assert(counts@.take(cdx + 1).last() == counts@[cdx as int]);
                        assert(pairs_by_window(counts@.take(cdx + 1)) == pairs_by_window(
                            prefix,
                        ).insert(window, new_count));
                        assert(b == spec_rebuilt_buckets(limits@, prefix, observation_millis)[
                            window]);
                        assert(bmap_of(self.buckets@) =~= spec_rebuilt_buckets(
                            limits@,
                            counts@.take(cdx + 1),
                            observation_millis,
                        ));
                    }
                },
                None => {
                    proof {
                        assert(false);
                    }
                },
            }
            cdx += 1;
        }
        proof {
            assert(counts@.take(counts@.len() as int) =~= counts@);
        }

        self.last_update_millis = observation_millis;

        proof {
            let s = self.bucket_seq();
            assert forall|i: int| 0 <= i < s.len() implies {
                let b = #[trigger] s[i];
                b.count <= b.max_count && b.window_seconds > 0
            } by {
                lemma_bmap_index(s, i);
                let w = s[i].window_seconds;
                lemma_bmap_dom(s, w);
                lemma_pairs_by_window(limits@, w);
                if pairs_by_window(counts@).dom().contains(w) {
                    lemma_pairs_by_window(counts@, w);
                }
            }
            self.lemma_wf_bmap();
        }
    }

    /// The smallest full window of this endpoint's table, if any bucket is
    /// full.
    pub open spec fn spec_min_full(self) -> Option<u64> {
        min_full_window(self.bucket_seq())
    }

    /// The `(headroom, window)` pair most likely to trip the rate limit.
    pub open spec fn spec_most_likely(self) -> Option<(u64, u64)> {
        min_headroom_pair(self.bucket_seq())
    }

    /// What [`Self::spec_min_full`] means over the bucket map: `None`
    /// exactly when no bucket is full, and a `Some` names the smallest
    /// full window.
    pub proof fn lemma_min_full_characterization(self)
        requires
            self.spec_wf(),
        ensures
            (self.spec_min_full() is None) <==> (forall|w: u64| #[trigger]
                self.bmap().dom().contains(w) ==> self.bmap()[w].count != self.bmap()[w].max_count),
            self.spec_min_full() matches Some(w) ==> self.bmap().dom().contains(w)
                && self.bmap()[w].count == self.bmap()[w].max_count && (forall|w2: u64|
                #[trigger] self.bmap().dom().contains(w2) && self.bmap()[w2].count == self.bmap()[w2].max_count ==> w <= w2),
    {
        let s = self.bucket_seq();
        lemma_min_full_seq(s);
        if min_full_window(s) is None {
            assert forall|w: u64| #[trigger] self.bmap().dom().contains(w) implies self.bmap()[w].count != self.bmap()[w].max_count by {
                lemma_bmap_dom(s, w);
                let i = choose|i: int|
                    0 <= i < s.len() && (#[trigger] s[i]).window_seconds == w;
                lemma_bmap_index(s, i);
            }
        } else {
            let w = min_full_window(s)->0;
            let i = choose|i: int|
                0 <= i < s.len() && (#[trigger] s[i]).window_seconds == w && s[i].count
                    == s[i].max_count;
            lemma_bmap_index(s, i);
            assert(self.bmap().dom().contains(w));
            assert forall|w2: u64|
                #[trigger] self.bmap().dom().contains(w2) && self.bmap()[w2].count
                == self.bmap()[w2].max_count implies w <= w2 by {
                lemma_bmap_dom(s, w2);
                let j = choose|j: int|
                    0 <= j < s.len() && (#[trigger] s[j]).window_seconds == w2;
                lemma_bmap_index(s, j);
            }
            if self.bmap().dom().contains(w) && self.bmap()[w].count != self.bmap()[w].max_count {
                assert(self.bmap()[w] == s[i]);
            }
        }
    }

    /// What [`Self::spec_most_likely`] means over the bucket map: `None`
    /// exactly when the table is empty, and a `Some` carries the least
    /// `(headroom, window)` pair.
    pub proof fn lemma_most_likely_characterization(self)
        requires
            self.spec_wf(),
        ensures
            (self.spec_most_likely() is None) <==> self.bucket_seq().len() == 0,
            (self.spec_most_likely() is None) <==> (forall|w: u64|
                !(#[trigger] self.bmap().dom().contains(w))),
            self.spec_most_likely() matches Some(p) ==> self.bmap().dom().contains(p.1)
                && p.0 == self.bmap()[p.1].max_count - self.bmap()[p.1].count && (forall|w2: u64|
                #[trigger] self.bmap().dom().contains(w2) ==> lex_le(
                    p,
                    ((self.bmap()[w2].max_count - self.bmap()[w2].count) as u64, w2),
                )),
    {
        let s = self.bucket_seq();
        lemma_min_headroom_seq(s);
        if s.len() == 0 {
            assert forall|w: u64| !(#[trigger] self.bmap().dom().contains(w)) by {
                lemma_bmap_dom(s, w);
            }
        } else {
            assert(self.bmap().dom().contains(s[0].window_seconds)) by {
                lemma_bmap_dom(s, s[0].window_seconds);
            }
            let p = min_headroom_pair(s)->0;
            let i = choose|i: int|
                0 <= i < s.len() && (#[trigger] s[i]).window_seconds == p.1 && s[i].count
                    == s[i].max_count - p.0;
            lemma_bmap_index(s, i);
            assert forall|w2: u64| #[trigger] self.bmap().dom().contains(w2) implies lex_le(
                p,
                ((self.bmap()[w2].max_count - self.bmap()[w2].count) as u64, w2),
            ) by {
                lemma_bmap_dom(s, w2);
                let j = choose|j: int|
                    0 <= j < s.len() && (#[trigger] s[j]).window_seconds == w2;
                lemma_bmap_index(s, j);
            }
        }
    }

    /// Whether the cached buckets call for a proactive cooldown: returns
    /// the smallest full window length, or `None` when no bucket is full.
    /// A full bucket means the server will refuse the next request in that
    /// window, so entering cooldown now avoids a 429.
    pub fn should_cooldown(&self) -> (r: Option<u64>)
        requires
            self.spec_wf(),
        ensures
            r == self.spec_min_full(),
    {
        let s = &self.buckets;
        let mut best: Option<u64> = None;
        let mut i: usize = 0;
        while i < s.len()
            invariant
                i <= s@.len(),
                best == min_full_window(s@.take(i as int)),
            decreases s@.len() - i,
        {
            let b = s[i];
            proof {
                assert(s@.take(i + 1).drop_last() =~= s@.take(i as int));
                assert(s@.take(i + 1).last() == s@[i as int]);
            }
            if b.count == b.max_count {
                best = match best {
                    None => Some(b.window_seconds),
                    Some(m) => if b.window_seconds < m {
                        Some(b.window_seconds)
                    } else {
                        Some(m)
                    },
                };
            }
            i += 1;
        }
        proof {
            assert(s@.take(s@.len() as int) =~= s@);
        }
        best
    }

    /// The `(headroom, window)` pair of the bucket most likely to trip the
    /// rate limit: least remaining headroom `max_count - count`, ties
    /// broken by the shorter window.  `None` when nothing is cached.
    pub fn most_likely_cd(&self) -> (r: Option<(u64, u64)>)
        requires
            self.spec_wf(),
        ensures
            r == self.spec_most_likely(),
    {
        let s = &self.buckets;
        let mut best: Option<(u64, u64)> = None;
        let mut i: usize = 0;
        while i < s.len()
            invariant
                i <= s@.len(),
                best == min_headroom_pair(s@.take(i as int)),
                self.spec_wf(),
                s@ == self.bucket_seq(),
            decreases s@.len() - i,
        {
            let b = s[i];
            proof {
                assert(s@.take(i + 1).drop_last() =~= s@.take(i as int));
                assert(s@.take(i + 1).last() == s@[i as int]);
            }
            let p = (b.max_count - b.count, b.window_seconds);
            best = match best {
                None => Some(p),
                Some(q) => if q.0 < p.0 || (q.0 == p.0 && q.1 <= p.1) {
                    Some(q)
                } else {
                    Some(p)
                },
            };
            i += 1;
        }
        proof {
            assert(s@.take(s@.len() as int) =~= s@);
        }
        best
    }

    /// The pre-send check: an expired cooldown becomes a
    /// `JustOffCooldown` probe carrying the old duration; every other
    /// status is left alone.
    pub fn update_status_pre_query(&mut self, now_millis: u64)
        ensures
            final(self).spec_status() == spec_pre_query_step(old(self).spec_status(), now_millis),
            final(self).bucket_seq() == old(self).bucket_seq(),
            final(self).spec_last_update() == old(self).spec_last_update(),
            final(self).spec_wf() == old(self).spec_wf(),
    {
        let st = self.status;
        match st {
            Status::Cooldown(cd) => {
                if cd.is_expired(now_millis) {
                    self.status = Status::JustOffCooldown(cd.duration_millis);
                }
            },
            _ => {},
        }
    }

    /// Folds a 200 response into the status.  From any sendable state the
    /// endpoint moves to `Cooldown` when some bucket is full (for the
    /// smallest full window) and to `Normal` otherwise; an endpoint
    /// already on cooldown is left alone.
    pub fn update_status_200(&mut self, now_millis: u64)
        requires
            old(self).spec_wf(),
        ensures
            final(self).spec_status() == spec_ok_step(*old(self), now_millis),
            final(self).bucket_seq() == old(self).bucket_seq(),
            final(self).spec_last_update() == old(self).spec_last_update(),
            final(self).spec_wf(),
            !(old(self).spec_status() is Cooldown) ==> ((final(self).spec_status() is Cooldown)
                <==> (exists|w: u64| #[trigger]
                old(self).bmap().dom().contains(w) && old(self).bmap()[w].count
                    == old(self).bmap()[w].max_count)),
            !(old(self).spec_status() is Cooldown) ==> ((final(self).spec_status() is Normal)
                <==> (forall|w: u64| #[trigger]
                old(self).bmap().dom().contains(w) ==> old(self).bmap()[w].count
                    != old(self).bmap()[w].max_count)),
    {
        proof {
            self.lemma_min_full_characterization();
        }
        let st = self.status;
        match st {
            Status::Normal | Status::Unknown | Status::JustOffCooldown(_) => {
                self.set_status_normal_or_cooldown(now_millis);
            },
            _ => {},
        }
    }

    /// Folds a 429 into the status: a probe that was just off cooldown
    /// goes back on cooldown for twice the previous duration, capped at
    /// [`MAX_COOLDOWN_MILLIS`].  Other states are handled by the
    /// table-level 429 policy, not here.
    pub fn update_status_400(&mut self, now_millis: u64)
        ensures
            final(self).spec_status() == spec_status_429_step(old(self).spec_status(), now_millis),
            final(self).bucket_seq() == old(self).bucket_seq(),
            final(self).spec_last_update() == old(self).spec_last_update(),
            final(self).spec_wf() == old(self).spec_wf(),
            old(self).spec_status() matches Status::JustOffCooldown(d) ==> final(self).spec_status()
                == Status::Cooldown(
                CooldownState {
                    start_millis: now_millis,
                    duration_millis: spec_doubled_capped(d),
                },
            ),
    {
        let st = self.status;
        match st {
            Status::JustOffCooldown(d) => {
                let doubled = if d > MAX_COOLDOWN_MILLIS / 2 {
                    MAX_COOLDOWN_MILLIS
                } else {
                    2 * d
                };
                self.status = Status::Cooldown(CooldownState::new(now_millis, doubled));
            },
            _ => {},
        }
    }

    /// Ready to be queried, or the error that says why not: an endpoint
    /// is queryable in `Unknown` (probe), `Normal` and `JustOffCooldown`
    /// (probe), and refuses queries exactly while on cooldown.  The error
    /// snapshots the status and the cooldown time remaining at
    /// `now_millis`.
    pub fn error_for_status(&self, now_millis: u64) -> (r: Result<(), crate::errors::Error>)
        ensures
            (r is Err) <==> (self.spec_status() is Cooldown),
            match self.spec_status() {
                Status::Cooldown(cd) => r == Result::<(), crate::errors::Error>::Err(
                    crate::errors::Error::EndpointNotReady {
                        status: self.spec_status(),
                        remaining_millis: cd.spec_time_left(now_millis),
                    },
                ),
                _ => r is Ok,
            },
    {
        match self.status {
            Status::Cooldown(cd) => {
                let remaining = match cd.time_left(now_millis) {
                    Some(t) => t,
                    None => 0,
                };
                Err(
                    crate::errors::Error::EndpointNotReady {
                        status: self.status,
                        remaining_millis: remaining,
                    },
                )
            },
            _ => Ok(()),
        }
    }

    /// Unconditionally enters cooldown for the given duration, starting
    /// now.
    pub fn force_cd(&mut self, duration_millis: u64, now_millis: u64)
        ensures
            final(self).spec_status() == Status::Cooldown(
                CooldownState { start_millis: now_millis, duration_millis },
            ),
            final(self).bucket_seq() == old(self).bucket_seq(),
            final(self).spec_last_update() == old(self).spec_last_update(),
            final(self).spec_wf() == old(self).spec_wf(),
    {
        self.status = Status::Cooldown(CooldownState::new(now_millis, duration_millis));
    }

    /// Moves to `Normal` or, when some bucket is full, proactively to
    /// `Cooldown` for the smallest full window.
    fn set_status_normal_or_cooldown(&mut self, now_millis: u64)
        requires
            old(self).spec_wf(),
        ensures
            final(self).spec_status() == (match old(self).spec_min_full() {
                Some(w) => Status::Cooldown(
                    CooldownState {
                        start_millis: now_millis,
                        duration_millis: spec_millis_of_seconds(w),
                    },
                ),
                None => Status::Normal,
            }),
            final(self).bucket_seq() == old(self).bucket_seq(),
            final(self).spec_last_update() == old(self).spec_last_update(),
            final(self).spec_wf(),
    {
        match self.should_cooldown() {
            Some(w) => {
                self.status = Status::Cooldown(
                    CooldownState::new(now_millis, millis_of_seconds(w)),
                );
            },
            None => {
                self.status = Status::Normal;
            },
        }
    }
}

/// Status after folding in a 200 response at instant `now_millis`: from a
/// sendable state, `Cooldown` over the smallest full window when some
/// bucket is full, else `Normal`; an endpoint already on cooldown keeps
/// its status.
pub open spec fn spec_ok_step(e: Endpoint, now_millis: u64) -> Status {
    match e.spec_status() {
        Status::Normal | Status::Unknown | Status::JustOffCooldown(_) => {
            match e.spec_min_full() {
                Some(w) => Status::Cooldown(
                    CooldownState {
                        start_millis: now_millis,
                        duration_millis: spec_millis_of_seconds(w),
                    },
                ),
                None => Status::Normal,
            }
        },
        _ => e.spec_status(),
    }
}

proof fn lemma_min_full_seq(s: Seq<RateLimitBucket>)
    ensures
        (min_full_window(s) is None) <==> (forall|i: int|
            0 <= i < s.len() ==> (#[trigger] s[i]).count != s[i].max_count),
        min_full_window(s) matches Some(w) ==> (exists|i: int|
            0 <= i < s.len() && (#[trigger] s[i]).window_seconds == w && s[i].count
                == s[i].max_count) && (forall|i: int|
            0 <= i < s.len() && (#[trigger] s[i]).count == s[i].max_count ==> w
                <= s[i].window_seconds),
    decreases s.len(),
{
    if s.len() > 0 {
        lemma_min_full_seq(s.drop_last());
        let d = s.drop_last();
        assert(forall|i: int| 0 <= i < d.len() ==> #[trigger] d[i] == s[i]);
        match min_full_window(s) {
            None => {
                assert forall|i: int| 0 <= i < s.len() implies (#[trigger] s[i]).count
                    != s[i].max_count by {
                    if i < s.len() - 1 {
                        assert(d[i] == s[i]);
                    } else {
                        assert(s[i] == s.last());
                    }
                }
            },
            Some(w) => {
                let b = s.last();
                if b.count == b.max_count && (min_full_window(d) is None || b.window_seconds
                    < min_full_window(d)->0) {
                    assert(s[s.len() - 1].window_seconds == w && s[s.len() - 1].count == s[s.len()
                        - 1].max_count);
                } else {
                    let i = choose|i: int|
                        0 <= i < d.len() && (#[trigger] d[i]).window_seconds == w && d[i].count
                            == d[i].max_count;
                    assert(s[i].window_seconds == w && s[i].count == s[i].max_count);
                }
                assert forall|i: int|
                    0 <= i < s.len() && (#[trigger] s[i]).count == s[i].max_count implies w
                    <= s[i].window_seconds by {
                    if i < s.len() - 1 {
                        assert(d[i] == s[i]);
                    }
                }
            },
        }
    }
}

proof fn lemma_min_headroom_seq(s: Seq<RateLimitBucket>)
    requires
        forall|i: int|
            0 <= i < s.len() ==> (#[trigger] s[i]).count <= s[i].max_count,
    ensures
        (min_headroom_pair(s) is None) <==> s.len() == 0,
        min_headroom_pair(s) matches Some(p) ==> (exists|i: int|
            0 <= i < s.len() && (#[trigger] s[i]).window_seconds == p.1 && s[i].count
                == s[i].max_count - p.0) && (forall|i: int|
            0 <= i < s.len() ==> lex_le(
                p,
                (((#[trigger] s[i]).max_count - s[i].count) as u64, s[i].window_seconds),
            )),
    decreases s.len(),
{
    if s.len() > 0 {
        lemma_min_headroom_seq(s.drop_last());
        let d = s.drop_last();
        assert(forall|i: int| 0 <= i < d.len() ==> #[trigger] d[i] == s[i]);
        match min_headroom_pair(s) {
            Some(p) => {
                let b = s.last();
                let q = ((b.max_count - b.count) as u64, b.window_seconds);
                if p == q && (min_headroom_pair(d) is None || !lex_le(min_headroom_pair(d)->0, q)) {
                    assert(s[s.len() - 1].window_seconds == p.1 && s[s.len() - 1].count == s[s.len()
                        - 1].max_count - p.0);
                } else {
                    let i = choose|i: int|
                        0 <= i < d.len() && (#[trigger] d[i]).window_seconds == p.1 && d[i].count
                            == d[i].max_count - p.0;
                    assert(s[i].window_seconds == p.1 && s[i].count == s[i].max_count - p.0);
                }
                assert forall|i: int| 0 <= i < s.len() implies lex_le(
                    p,
                    (((#[trigger] s[i]).max_count - s[i].count) as u64, s[i].window_seconds),
                ) by {
                    if i < s.len() - 1 {
                        assert(d[i] == s[i]);
                    }
                }
            },
            None => {},
        }
    }
}

/// The pre-send check is idempotent: once an expired cooldown has turned
/// into a `JustOffCooldown` probe, further pre-send checks at any later
/// instant leave the status exactly as it is.
pub proof fn lemma_pre_query_expired_idempotent(cd: CooldownState, now1: u64, now2: u64)
    requires
        cd.spec_time_left(now1) == 0,
    ensures
        spec_pre_query_step(Status::Cooldown(cd), now1) == Status::JustOffCooldown(
            cd.duration_millis,
        ),
        spec_pre_query_step(spec_pre_query_step(Status::Cooldown(cd), now1), now2)
            == spec_pre_query_step(Status::Cooldown(cd), now1),
{
}

/// Round trip of a fresh observation: when every advertised window is
/// observed strictly below its limit, no bucket is full, so a 200 fold
/// from `Normal` leaves the endpoint `Normal`.
pub proof fn lemma_fresh_observation_round_trip(
    e: Endpoint,
    limits: Seq<(u64, u64)>,
    counts: Seq<(u64, u64)>,
    observation_millis: i64,
    now_millis: u64,
)
    requires
        e.spec_wf(),
        e.bmap() == spec_rebuilt_buckets(limits, counts, observation_millis),
        limits.len() == counts.len(),
        forall|i: int| 0 <= i < limits.len() ==> (#[trigger] counts[i]).1 == limits[i].1,
        forall|i: int, j: int|
            0 <= i < j < limits.len() ==> (#[trigger] limits[i]).1 != (#[trigger] limits[j]).1,
        forall|i: int| 0 <= i < limits.len() ==> (#[trigger] counts[i]).0 < limits[i].0,
        e.spec_status() == Status::Normal,
    ensures
        e.spec_min_full() is None,
        spec_ok_step(e, now_millis) == Status::Normal,
{
    assert forall|w: u64| #[trigger] e.bmap().dom().contains(w) implies e.bmap()[w].count
        != e.bmap()[w].max_count by {
        lemma_pairs_by_window(limits, w);
        let i = choose|i: int|
            0 <= i < limits.len() && (#[trigger] limits[i]).1 == w && limits[i].0
                == pairs_by_window(limits)[w];
        assert(counts[i].1 == w);
        assert(counts[i].0 < limits[i].0);
        if pairs_by_window(counts).dom().contains(w) {
            lemma_pairs_by_window(counts, w);
            let j = choose|j: int|
                0 <= j < counts.len() && (#[trigger] counts[j]).1 == w && counts[j].0
                    == pairs_by_window(counts)[w];
            assert(limits[j].1 == w);
            if i != j {
                assert(limits[i].1 != limits[j].1);
            }
            assert(pairs_by_window(counts)[w] < pairs_by_window(limits)[w]);
        } else {
            assert(pairs_have_window(counts, w));
            lemma_pairs_by_window(counts, w);
        }
    }
    e.lemma_min_full_characterization();
    match e.spec_min_full() {
        Some(w) => {
            assert(e.bmap().dom().contains(w) && e.bmap()[w].count == e.bmap()[w].max_count);
        },
        None => {},
    }
}

} // verus!
