//! A per-client cooldown gate for the guestbook's write endpoint. An
//! identity's action is allowed when it was never seen before, or when at
//! least the cooldown has elapsed since its last *accepted* action; a denied
//! attempt never moves the window forward.
use crate::cache::elapsed;
use crate::identity::IpAddr;
use vstd::prelude::*;

verus! {

/// The last-accepted instant stored for one identity, if any.
pub open spec fn spec_find(entries: Seq<(IpAddr, u64)>, ip: IpAddr) -> Option<u64>
    decreases entries.len(),
{
    if entries.len() == 0 {
        None
    } else if entries[0].0 == ip {
        Some(entries[0].1)
    } else {
        spec_find(entries.drop_first(), ip)
    }
}

/// Whether an attempt at `now` is allowed, given the identity's last
/// accepted instant.
pub open spec fn window_allowed(last: Option<u64>, cooldown: u64, now: u64) -> bool {
    match last {
        None => true,
        Some(t) => elapsed(t, now) >= cooldown,
    }
}

/// The stored instant after an attempt at `now`: accepted attempts record
/// `now`, denied attempts leave the window untouched.
pub open spec fn window_after(last: Option<u64>, cooldown: u64, now: u64) -> Option<u64> {
    if window_allowed(last, cooldown, now) {
        Some(now)
    } else {
        last
    }
}

/// Maps each client identity to the instant of its last accepted action.
pub struct RateLimiter {
    last_request: Vec<(IpAddr, u64)>,
    cooldown: u64,
}

impl RateLimiter {
    pub closed spec fn spec_cooldown(&self) -> u64 {
        self.cooldown
    }

    /// No identity is listed twice. Lookups take the first match and
    /// updates hit the first match, so behavior never depends on it; it is
    /// stated so that a reader need not re-derive that in-place update and
    /// lookup agree. `new` establishes it and every mutation preserves it.
    pub closed spec fn wf(&self) -> bool {
        forall|i: int, j: int|
            0 <= i < j < self.last_request@.len() ==> (#[trigger] self.last_request@[i]).0 != (
            #[trigger] self.last_request@[j]).0
    }

    /// The last accepted instant recorded for `ip`.
    pub closed spec fn last_action(&self, ip: IpAddr) -> Option<u64> {
        spec_find(self.last_request@, ip)
    }

    /// A limiter with the given cooldown (milliseconds) and no history.
    pub fn new(cooldown: u64) -> (r: Self)
        ensures
            r.spec_cooldown() == cooldown,
            forall|ip: IpAddr| r.last_action(ip) is None,
            r.wf(),
    {
        RateLimiter { last_request: Vec::new(), cooldown }
    }

    pub fn cooldown(&self) -> (r: u64)
        ensures
            r == self.spec_cooldown(),
    {
        self.cooldown
    }

    /// Checks and records in one step: allowed attempts move the identity's
    /// window to `now`; denied attempts change nothing, for this identity or
    /// any other.
    pub fn is_allowed(&mut self, ip: IpAddr, now: u64) -> (r: bool)
        ensures
            r == window_allowed(old(self).last_action(ip), old(self).spec_cooldown(), now),
            final(self).spec_cooldown() == old(self).spec_cooldown(),
            final(self).last_action(ip) == window_after(
                old(self).last_action(ip),
                old(self).spec_cooldown(),
                now,
            ),
            !r ==> *final(self) == *old(self),
            forall|other: IpAddr|
                other != ip ==> final(self).last_action(other) == old(self).last_action(other),
            old(self).wf() ==> final(self).wf(),
    {
        let n: usize = self.last_request.len();
        let mut i: usize = 0;
        while i < n
            invariant
                0 <= i <= n,
                *self == *old(self),
                n == self.last_request@.len(),
                forall|j: int| 0 <= j < i ==> (#[trigger] self.last_request@[j]).0 != ip,
            decreases n - i,
        {
            if self.last_request[i].0 == ip {
                let last = self.last_request[i].1;
                proof {
                    lemma_spec_find_at(self.last_request@, ip, i as int);
                }
                let age = if now >= last {
                    now - last
                } else {
                    0
                };
                if age < self.cooldown {
                    return false;
                }
                self.last_request.set(i, (ip, now));
                proof {
                    assert(old(self).wf() ==> self.wf()) by {
                        if old(self).wf() {
                            assert forall|a: int, b: int|
                                0 <= a < b < self.last_request@.len() implies (
                            #[trigger] self.last_request@[a]).0 != (
                            #[trigger] self.last_request@[b]).0 by {
                                assert(self.last_request@[a].0 == old(self).last_request@[a].0);
                                assert(self.last_request@[b].0 == old(self).last_request@[b].0);
                            }
                        }
                    }
                    lemma_spec_find_at(self.last_request@, ip, i as int);
                    assert forall|other: IpAddr| other != ip implies spec_find(
                        self.last_request@,
                        other,
                    ) == spec_find(old(self).last_request@, other) by {
                        lemma_spec_find_update_other(
                            old(self).last_request@,
                            self.last_request@,
                            i as int,
                            other,
                        );
                    }
                }
                return true;
            }
            i += 1;
        }
        proof {
            lemma_spec_find_absent(self.last_request@, ip);
        }
        self.last_request.push((ip, now));
        proof {
            assert(old(self).wf() ==> self.wf()) by {
                if old(self).wf() {
                    assert forall|a: int, b: int|
                        0 <= a < b < self.last_request@.len() implies (
                    #[trigger] self.last_request@[a]).0 != (#[trigger] self.last_request@[b]).0 by {
                        if b < n {
                            assert(self.last_request@[a] == old(self).last_request@[a]);
                            assert(self.last_request@[b] == old(self).last_request@[b]);
                        } else {
                            assert(self.last_request@[a] == old(self).last_request@[a]);
                            assert(self.last_request@[b].0 == ip);
                        }
                    }
                }
            }
            lemma_spec_find_at(self.last_request@, ip, n as int);
            assert forall|other: IpAddr| other != ip implies spec_find(self.last_request@, other)
                == spec_find(old(self).last_request@, other) by {
                lemma_spec_find_push_other(old(self).last_request@, ip, now, other);
            }
        }
        true
    }
}

impl RateLimiter {
    /// Gates a write request: a request whose origin could not be resolved
    /// is denied by policy and touches nothing; any other is checked and
    /// recorded in one step.
    pub fn allow_request(&mut self, identity: Option<IpAddr>, now: u64) -> (r: bool)
        ensures
            identity is None ==> !r && *final(self) == *old(self),
            identity matches Some(ip) ==> r == window_allowed(
                old(self).last_action(ip),
                old(self).spec_cooldown(),
                now,
            ) && final(self).last_action(ip) == window_after(
                old(self).last_action(ip),
                old(self).spec_cooldown(),
                now,
            ),
            identity matches Some(ip) ==> forall|other: IpAddr|
                other != ip ==> final(self).last_action(other) == old(self).last_action(other),
            !r ==> *final(self) == *old(self),
            final(self).spec_cooldown() == old(self).spec_cooldown(),
            old(self).wf() ==> final(self).wf(),
    {
        match identity {
            Some(ip) => self.is_allowed(ip, now),
            None => false,
        }
    }
}

/// When `ip` first occurs at position `i`, the lookup yields that entry.
proof fn lemma_spec_find_at(entries: Seq<(IpAddr, u64)>, ip: IpAddr, i: int)
    requires
        0 <= i < entries.len(),
        entries[i].0 == ip,
        forall|j: int| 0 <= j < i ==> (#[trigger] entries[j]).0 != ip,
    ensures
        spec_find(entries, ip) == Some(entries[i].1),
    decreases i,
{
    if i > 0 {
        lemma_spec_find_at(entries.drop_first(), ip, i - 1);
    }
}

/// When `ip` occurs nowhere, the lookup yields nothing.
proof fn lemma_spec_find_absent(entries: Seq<(IpAddr, u64)>, ip: IpAddr)
    requires
        forall|j: int| 0 <= j < entries.len() ==> (#[trigger] entries[j]).0 != ip,
    ensures
        spec_find(entries, ip) is None,
    decreases entries.len(),
{
    if entries.len() > 0 {
        lemma_spec_find_absent(entries.drop_first(), ip);
    }
}

/// Updating position `i` in place does not change any other key's lookup,
/// provided the key at `i` stays the same.
proof fn lemma_spec_find_update_other(
    before: Seq<(IpAddr, u64)>,
    after: Seq<(IpAddr, u64)>,
    i: int,
    other: IpAddr,
)
    requires
        0 <= i < before.len(),
        after.len() == before.len(),
        forall|j: int| 0 <= j < before.len() && j != i ==> after[j] == before[j],
        after[i].0 == before[i].0,
        other != before[i].0,
    ensures
        spec_find(after, other) == spec_find(before, other),
    decreases i,
{
    if i == 0 {
        assert(after.drop_first() =~= before.drop_first());
    } else {
        assert(after[0] == before[0]);
        if before[0].0 != other {
            lemma_spec_find_update_other(before.drop_first(), after.drop_first(), i - 1, other);
        }
    }
}

/// Appending an entry for `ip` does not change any other key's lookup.
proof fn lemma_spec_find_push_other(
    entries: Seq<(IpAddr, u64)>,
    ip: IpAddr,
    now: u64,
    other: IpAddr,
)
    requires
        other != ip,
    ensures
        spec_find(entries.push((ip, now)), other) == spec_find(entries, other),
    decreases entries.len(),
{
    if entries.len() == 0 {
        assert(entries.push((ip, now)).drop_first() =~= Seq::<(IpAddr, u64)>::empty());
    } else {
        assert(entries.push((ip, now)).drop_first() =~= entries.drop_first().push((ip, now)));
        lemma_spec_find_push_other(entries.drop_first(), ip, now, other);
    }
}

/// A denied attempt never moves the window: while the elapsed time since
/// the last accepted action is under the cooldown, the attempt is denied
/// and the stored instant stays what it was — also when the clock reads
/// earlier than the stored instant, where the elapsed time saturates to
/// zero the way monotonic instants subtract.
pub proof fn lemma_denial_keeps_window(last: u64, cooldown: u64, now: u64)
    requires
        elapsed(last, now) < cooldown,
    ensures
        !window_allowed(Some(last), cooldown, now),
        window_after(Some(last), cooldown, now) == Some(last),
{
}

/// The stored window after a run of attempts at the given instants.
pub open spec fn run_attempts(last: Option<u64>, cooldown: u64, times: Seq<u64>) -> Option<u64>
    decreases times.len(),
{
    if times.len() == 0 {
        last
    } else {
        run_attempts(window_after(last, cooldown, times[0]), cooldown, times.drop_first())
    }
}

/// Monotonic window: once an action is accepted at `t0`, every attempt made
/// strictly inside the cooldown window is denied, and — because denials do
/// not reset the window — the stored instant stays `t0` throughout, however
/// many attempts are made. An attempt a full cooldown after `t0` is then
/// accepted.
pub proof fn lemma_monotonic_window(cooldown: u64, t0: u64, times: Seq<u64>, t1: u64)
    requires
        forall|i: int|
            0 <= i < times.len() ==> t0 <= #[trigger] times[i] && times[i] < t0 + cooldown,
        t1 >= t0 + cooldown,
    ensures
        run_attempts(Some(t0), cooldown, times) == Some(t0),
        forall|i: int| 0 <= i < times.len() ==> !window_allowed(Some(t0), cooldown, times[i]),
        window_allowed(Some(t0), cooldown, t1),
        window_after(Some(t0), cooldown, t1) == Some(t1),
    decreases times.len(),
{
    if times.len() > 0 {
        assert(!window_allowed(Some(t0), cooldown, times[0]));
        lemma_monotonic_window(cooldown, t0, times.drop_first(), t1);
    }
}

} // verus!
