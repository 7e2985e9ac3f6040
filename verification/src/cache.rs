//! A time-to-live cache slot that coalesces repeated fetches of one kind of
//! externally produced data, together with its mathematical model and the
//! laws the protocol obeys: at most one fetch per stale window, no fetch
//! while fresh, and a failed fetch never disturbs the stored value.
use std::sync::Arc;
use vstd::prelude::*;
use vstd::rwlock::RwLock;

verus! {

/// Milliseconds elapsed from `last` to `now`, saturating at zero when the
/// clock appears to have moved backwards.
pub open spec fn elapsed(last: u64, now: u64) -> int {
    if now >= last {
        now - last
    } else {
        0
    }
}

/// One cache slot: the last known value, if any, and the instant
/// (milliseconds) of the last successful refresh.
pub struct CacheState<T> {
    pub data: Option<Arc<T>>,
    pub last_updated: u64,
}

impl<T> CacheState<T> {
    /// A slot is valid while it holds a value younger than `ttl`.
    pub open spec fn spec_valid(self, ttl: u64, now: u64) -> bool {
        self.data is Some && elapsed(self.last_updated, now) < ttl
    }

    pub fn is_valid(&self, ttl: u64, now: u64) -> (r: bool)
        ensures
            r == self.spec_valid(ttl, now),
    {
        let age = if now >= self.last_updated {
            now - self.last_updated
        } else {
            0
        };
        self.data.is_some() && age < ttl
    }
}

/// Relies on `Arc::clone`: the clone is the same shared value.
#[verifier::external_body]
fn clone_arc<T>(a: &Arc<T>) -> (r: Arc<T>)
    ensures
        r == *a,
{
    Arc::clone(a)
}

fn clone_opt_arc<T>(o: &Option<Arc<T>>) -> (r: Option<Arc<T>>)
    ensures
        r == *o,
{
    match o {
        Some(a) => Some(clone_arc(a)),
        None => None,
    }
}

/// The state a slot moves to when one caller passes through the exclusive
/// section at instant `now` and the fetch, if one was needed, came back as
/// `fetched`.
pub open spec fn slot_step<T>(
    s: CacheState<T>,
    ttl: u64,
    now: u64,
    fetched: Option<Arc<T>>,
) -> CacheState<T> {
    if s.spec_valid(ttl, now) {
        s
    } else {
        match fetched {
            Some(v) => CacheState { data: Some(v), last_updated: now },
            None => s,
        }
    }
}

/// The value that same caller is handed back.
pub open spec fn slot_out<T>(
    s: CacheState<T>,
    ttl: u64,
    now: u64,
    fetched: Option<Arc<T>>,
) -> Option<Arc<T>> {
    if s.spec_valid(ttl, now) {
        s.data
    } else {
        match fetched {
            Some(v) => Some(v),
            None => s.data,
        }
    }
}

impl<T> CacheState<T> {
    /// The exclusive section of `get_or_update`: re-check freshness, fetch
    /// only if still stale, keep the old value when the fetch fails. This is
    /// the exact per-step contract of the cache; the concurrent entry points
    /// apply it under the write lock.
    pub fn refresh_with<F: FnOnce() -> Option<T>>(&mut self, ttl: u64, now: u64, fetcher: F) -> (r:
        Option<Arc<T>>)
        requires
            call_requires(fetcher, ()),
        ensures
            old(self).spec_valid(ttl, now) ==> *final(self) == *old(self) && r == old(self).data,
            !old(self).spec_valid(ttl, now) ==> exists|fr: Option<T>|
                {
                    &&& #[trigger] call_ensures(fetcher, (), fr)
                    &&& match fr {
                        Some(v) => {
                            &&& final(self).last_updated == now
                            &&& (final(self).data matches Some(a) && a == v)
                            &&& r == final(self).data
                        },
                        None => *final(self) == *old(self) && r == old(self).data,
                    }
                },
    {
        if self.is_valid(ttl, now) {
            return clone_opt_arc(&self.data);
        }
        match fetcher() {
            Some(v) => {
                let a = Arc::new(v);
                let out = clone_arc(&a);
                self.data = Some(a);
                self.last_updated = now;
                Some(out)
            },
            None => clone_opt_arc(&self.data),
        }
    }
}

/// A shared time-to-live cache for one kind of fetched resource. Readers on
/// the fresh path run concurrently; a stale slot is refreshed under an
/// exclusive lock after re-checking freshness, so that of all callers that
/// observe the same stale window only the first fetches.
#[verifier::reject_recursive_types(T)]
pub struct Cache<T> {
    state: RwLock<CacheState<T>, spec_fn(CacheState<T>) -> bool>,
    ttl: u64,
}

impl<T> Cache<T> {
    /// Any slot state may sit in the lock; the lock only serializes access.
    #[verifier::type_invariant]
    spec fn wf(self) -> bool {
        forall|s: CacheState<T>| self.state.inv(s)
    }

    /// The time-to-live this cache was built with, in milliseconds.
    pub closed spec fn spec_ttl(&self) -> u64 {
        self.ttl
    }

    /// A new, empty cache; the slot starts stale.
    pub fn new(ttl: u64) -> (c: Self)
        ensures
            c.spec_ttl() == ttl,
    {
        let initial = CacheState::<T> { data: None, last_updated: 0 };
        let state = RwLock::new(initial, Ghost(|s: CacheState<T>| true));
        let c = Cache { state, ttl };
        proof {
            assert forall|s: CacheState<T>| c.state.inv(s) by {
                assert(c.state.pred() == (|s: CacheState<T>| true));
            }
        }
        c
    }

    pub fn ttl(&self) -> (r: u64)
        ensures
            r == self.spec_ttl(),
    {
        self.ttl
    }

    /// `get_or_update` at an explicit instant. Fast path: a shared read of
    /// the slot; if it is fresh the stored value is returned and the fetcher
    /// is never consulted. Slow path: the exclusive section re-checks
    /// freshness and applies [`slot_step`]/[`slot_out`] semantics.
    ///
    /// The slot is shared with other threads, so no clause can pin which
    /// state this caller observes; what holds of every outcome is
    /// [`admissible_outcome`], the exact per-step semantics are the contract
    /// of [`CacheState::refresh_with`], and what the protocol guarantees
    /// across callers is stated by [`lemma_single_flight`],
    /// [`lemma_freshness`] and [`lemma_stale_on_failure`].
    pub fn get_or_update_at<F: FnOnce() -> Option<T>>(&self, now: u64, fetcher: F) -> (r: Option<
        Arc<T>,
    >)
        requires
            call_requires(fetcher, ()),
        ensures
            admissible_outcome(r, self.spec_ttl(), now, fetcher),
    {
        let read_handle = self.state.acquire_read();
        let snapshot = read_handle.borrow();
        let ghost observed = *snapshot;
        let fresh = snapshot.is_valid(self.ttl, now);
        if fresh {
            let r = clone_opt_arc(&snapshot.data);
            read_handle.release_read();
            proof {
                assert(observed.spec_valid(self.spec_ttl(), now) && r == observed.data);
            }
            return r;
        }
        read_handle.release_read();
        proof {
            use_type_invariant(self);
        }
        let (mut st, write_handle) = self.state.acquire_write();
        let ghost entered = st;
        let r = st.refresh_with(self.ttl, now, fetcher);
        write_handle.release_write(st);
        proof {
            if entered.spec_valid(self.spec_ttl(), now) {
                assert(entered.spec_valid(self.spec_ttl(), now) && r == entered.data);
            } else {
                let fr = choose|fr: Option<T>|
                    #[trigger] call_ensures(fetcher, (), fr) && match fr {
                        Some(v) => (r matches Some(a) && a == v),
                        None => r == entered.data,
                    };
                assert(call_ensures(fetcher, (), fr));
            }
        }
        r
    }

    /// Returns the freshest available value, refreshing through `fetcher`
    /// only when the slot is stale at the current instant.
    pub fn get_or_update<F: FnOnce() -> Option<T>>(&self, fetcher: F) -> (r: Option<Arc<T>>)
        requires
            call_requires(fetcher, ()),
        ensures
            exists|now: u64| #[trigger] admissible_outcome(r, self.spec_ttl(), now, fetcher),
    {
        let now = crate::clock::now_millis();
        let r = self.get_or_update_at(now, fetcher);
        proof {
            assert(admissible_outcome(r, self.spec_ttl(), now, fetcher));
        }
        r
    }
}

/// What any call of `get_or_update` can hand back: the stored value of some
/// slot state observed fresh at `now`, or — for a slot observed stale — the
/// value of some fetch outcome the fetcher's own contract admits: the
/// freshly fetched value, or that slot's stored value when the fetch
/// failed. For a fetcher whose contract rules failure out, an absent result
/// can only be an empty slot's stored value.
pub open spec fn admissible_outcome<T, F: FnOnce() -> Option<T>>(
    r: Option<Arc<T>>,
    ttl: u64,
    now: u64,
    fetcher: F,
) -> bool {
    exists|s: CacheState<T>|
        {
            ||| (#[trigger] s.spec_valid(ttl, now)) && r == s.data
            ||| !s.spec_valid(ttl, now) && exists|fr: Option<T>|
                #[trigger] call_ensures(fetcher, (), fr) && match fr {
                    Some(v) => (r matches Some(a) && a == v),
                    None => r == s.data,
                }
        }
}

/// Freshness: at any instant within `ttl` of the last refresh the slot is
/// left alone and the stored value is served, whatever a fetch could have
/// returned — so the fetch function is never invoked.
pub proof fn lemma_freshness<T>(s: CacheState<T>, ttl: u64, now: u64)
    requires
        s.spec_valid(ttl, now),
    ensures
        forall|fetched: Option<Arc<T>>|
            slot_step(s, ttl, now, fetched) == s && slot_out(s, ttl, now, fetched) == s.data,
{
}

/// Stale-on-failure: a failed fetch leaves the previously stored value and
/// its timestamp untouched, and that stale value is what the caller gets.
pub proof fn lemma_stale_on_failure<T>(s: CacheState<T>, ttl: u64, now: u64)
    requires
        !s.spec_valid(ttl, now),
    ensures
        slot_step(s, ttl, now, None) == s,
        slot_out(s, ttl, now, None) == s.data,
        s.data matches Some(v) ==> slot_out(s, ttl, now, None) == Some(v),
{
}

/// The slot state after a sequence of callers pass through the exclusive
/// section one by one, caller `i` at instant `times[i]` with fetch outcome
/// `fetches[i]`.
pub open spec fn run_calls<T>(
    s: CacheState<T>,
    ttl: u64,
    times: Seq<u64>,
    fetches: Seq<Option<Arc<T>>>,
) -> CacheState<T>
    decreases times.len(),
{
    if times.len() == 0 {
        s
    } else {
        run_calls(
            slot_step(s, ttl, times[0], fetches[0]),
            ttl,
            times.drop_first(),
            fetches.drop_first(),
        )
    }
}

/// Single-flight: when a stale slot is refreshed successfully at `now0`,
/// every later caller that reaches the exclusive section within the same
/// `ttl` window finds the slot fresh: the slot never changes again within
/// the window, each such caller is handed exactly the value `v` fetched by
/// the first caller, and none of their fetch outcomes matters — so the
/// fetch function runs exactly once for the window, however many callers
/// observed the slot stale.
pub proof fn lemma_single_flight<T>(
    s0: CacheState<T>,
    ttl: u64,
    now0: u64,
    v: Arc<T>,
    times: Seq<u64>,
    fetches: Seq<Option<Arc<T>>>,
)
    requires
        !s0.spec_valid(ttl, now0),
        times.len() == fetches.len(),
        forall|i: int| 0 <= i < times.len() ==> now0 <= #[trigger] times[i] && times[i] < now0 + ttl,
    ensures
        slot_step(s0, ttl, now0, Some(v)) == (CacheState { data: Some(v), last_updated: now0 }),
        run_calls(slot_step(s0, ttl, now0, Some(v)), ttl, times, fetches) == slot_step(
            s0,
            ttl,
            now0,
            Some(v),
        ),
        forall|i: int|
            0 <= i < times.len() ==> slot_out(
                slot_step(s0, ttl, now0, Some(v)),
                ttl,
                #[trigger] times[i],
                fetches[i],
            ) == Some(v),
    decreases times.len(),
{
    let s1 = slot_step(s0, ttl, now0, Some(v));
    assert forall|i: int| 0 <= i < times.len() implies s1.spec_valid(ttl, #[trigger] times[i]) by {
        assert(elapsed(now0, times[i]) < ttl);
    }
    if times.len() > 0 {
        assert(slot_step(s1, ttl, times[0], fetches[0]) == s1);
        lemma_single_flight(s0, ttl, now0, v, times.drop_first(), fetches.drop_first());
        assert(run_calls(s1, ttl, times, fetches) == run_calls(
            s1,
            ttl,
            times.drop_first(),
            fetches.drop_first(),
        ));
    }
}

} // verus!
