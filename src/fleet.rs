use vstd::prelude::*;
use crate::motion::{BusMotionState, classify, stationary_at, update_bus_motion_state};
use crate::schedule::str_equal;
use crate::vehicle::BusPosition;

verus! {

/// What the cache holds for one vehicle number: its latest position, its
/// motion state and the time of its last write. The last-seen time is what
/// makes the vehicle a member of the cache; the other two may be missing.
pub struct FleetEntry {
    pub bus_no: String,
    pub position: Option<BusPosition>,
    pub motion: Option<BusMotionState>,
    pub last_seen_unix_ms: i64,
}

impl Clone for FleetEntry {
    fn clone(&self) -> (r: Self)
        ensures
            r == *self,
    {
        FleetEntry {
            bus_no: self.bus_no.clone(),
            position: match &self.position {
                Some(p) => Some(p.clone()),
                None => None,
            },
            motion: self.motion,
            last_seen_unix_ms: self.last_seen_unix_ms,
        }
    }
}

/// The active-fleet cache: the three per-vehicle indexes, joined by vehicle
/// number, and the time of the last successful ingest.
pub struct FleetCache {
    pub entries: Vec<FleetEntry>,
    pub last_ingest_at_unix_ms: Option<i64>,
}

/// Index of the first entry at or after `i` for vehicle `id`, or `s.len()`.
pub open spec fn find_entry(s: Seq<FleetEntry>, id: Seq<char>, i: int) -> int
    decreases s.len() - i,
{
    if i < 0 || i >= s.len() {
        s.len() as int
    } else if s[i].bus_no@ == id {
        i
    } else {
        find_entry(s, id, i + 1)
    }
}

pub proof fn lemma_find_entry(s: Seq<FleetEntry>, id: Seq<char>, i: int)
    requires
        0 <= i <= s.len(),
    ensures
        i <= find_entry(s, id, i) <= s.len(),
        find_entry(s, id, i) < s.len() ==> s[find_entry(s, id, i)].bus_no@ == id,
        forall|k: int| i <= k < find_entry(s, id, i) ==> s[k].bus_no@ != id,
    decreases s.len() - i,
{
    if i < s.len() && s[i].bus_no@ != id {
        lemma_find_entry(s, id, i + 1);
    }
}

/// No vehicle number has two entries.
pub open spec fn keys_unique(s: Seq<FleetEntry>) -> bool {
    forall|i: int, j: int| 0 <= i < j < s.len() ==> s[i].bus_no@ != s[j].bus_no@
}

/// The entries after one write of `bus` at `now`: its entry is replaced (or
/// added) with the position, the motion state classified from the prior one,
/// and last-seen `now`; every other entry stays.
pub open spec fn written(s: Seq<FleetEntry>, bus: BusPosition, drift_m: nat, now: int) -> Seq<
    FleetEntry,
> {
    let k = find_entry(s, bus.bus_no@, 0);
    let prior = if k < s.len() {
        s[k].motion
    } else {
        None
    };
    let e = FleetEntry {
        bus_no: bus.bus_no,
        position: Some(bus),
        motion: Some(classify(prior, bus, drift_m, now)),
        last_seen_unix_ms: now as i64,
    };
    if k < s.len() {
        s.update(k, e)
    } else {
        s.push(e)
    }
}

/// The entries after writing the first `n` positions of a batch in order;
/// positions without a vehicle number are skipped.
pub open spec fn written_all(
    s: Seq<FleetEntry>,
    buses: Seq<BusPosition>,
    drifts: Seq<u64>,
    now: int,
    n: int,
) -> Seq<FleetEntry>
    decreases n,
{
    if n <= 0 {
        s
    } else {
        let prev = written_all(s, buses, drifts, now, n - 1);
        if buses[n - 1].bus_no@.len() == 0 {
            prev
        } else {
            written(prev, buses[n - 1], drifts[n - 1] as nat, now)
        }
    }
}

/// How many positions of the first `n` carry a vehicle number.
pub open spec fn count_named(buses: Seq<BusPosition>, n: int) -> nat
    decreases n,
{
    if n <= 0 {
        0
    } else {
        count_named(buses, n - 1) + if buses[n - 1].bus_no@.len() == 0 {
            0nat
        } else {
            1nat
        }
    }
}

/// A vehicle last seen at `last_seen` is active at `now` under `ttl`.
pub open spec fn is_active(last_seen: int, ttl: int, now: int) -> bool {
    last_seen > now - ttl
}

/// The entries that survive a snapshot at `now`, in order.
pub open spec fn active_entries(s: Seq<FleetEntry>, ttl: int, now: int) -> Seq<FleetEntry>
    decreases s.len(),
{
    if s.len() == 0 {
        s
    } else {
        let p = active_entries(s.drop_last(), ttl, now);
        if is_active(s.last().last_seen_unix_ms as int, ttl, now) {
            p.push(s.last())
        } else {
            p
        }
    }
}

/// The vehicle numbers a snapshot at `now` evicts, in order.
pub open spec fn evicted_ids(s: Seq<FleetEntry>, ttl: int, now: int) -> Seq<String>
    decreases s.len(),
{
    if s.len() == 0 {
        Seq::empty()
    } else {
        let p = evicted_ids(s.drop_last(), ttl, now);
        if is_active(s.last().last_seen_unix_ms as int, ttl, now) {
            p
        } else {
            p.push(s.last().bus_no)
        }
    }
}

/// The decoded positions among `s`, in order.
pub open spec fn positions_of(s: Seq<FleetEntry>) -> Seq<BusPosition>
    decreases s.len(),
{
    if s.len() == 0 {
        Seq::empty()
    } else {
        let p = positions_of(s.drop_last());
        match s.last().position {
            Some(b) => p.push(b),
            None => p,
        }
    }
}

/// The (vehicle number, motion state) pairs among `s`, in order.
pub open spec fn motions_of(s: Seq<FleetEntry>) -> Seq<(String, BusMotionState)>
    decreases s.len(),
{
    if s.len() == 0 {
        Seq::empty()
    } else {
        let p = motions_of(s.drop_last());
        match s.last().motion {
            Some(m) => p.push((s.last().bus_no, m)),
            None => p,
        }
    }
}

/// The feed counts as stale when nothing was ingested within `stale_after`
/// of `now`, or nothing ever was.
pub open spec fn stale(last_ingest: Option<i64>, now: int, stale_after: int) -> bool {
    match last_ingest {
        Some(t) => now - t > stale_after,
        None => true,
    }
}

/// Whether a response built at `now_ms` is stale.
pub fn is_stale(last_ingest_at_unix_ms: Option<i64>, now_ms: i64, stale_after_ms: i64) -> (r: bool)
    ensures
        r == stale(last_ingest_at_unix_ms, now_ms as int, stale_after_ms as int),
{
    match last_ingest_at_unix_ms {
        Some(t) => (now_ms as i128) - (t as i128) > stale_after_ms as i128,
        None => true,
    }
}

impl FleetCache {
    pub open spec fn wf(&self) -> bool {
        keys_unique(self.entries@)
    }

    /// An empty cache that has never ingested anything.
    pub fn new() -> (r: Self)
        ensures
            r.wf(),
            r.entries@.len() == 0,
            r.last_ingest_at_unix_ms is None,
    {
        FleetCache { entries: Vec::new(), last_ingest_at_unix_ms: None }
    }

    /// Position of the entry for vehicle `bus_no`, if there is one.
    pub fn find(&self, bus_no: &str) -> (r: Option<usize>)
        ensures
            match r {
                Some(k) => k == find_entry(self.entries@, bus_no@, 0) && k < self.entries@.len(),
                None => find_entry(self.entries@, bus_no@, 0) == self.entries@.len(),
            },
    {
        let mut i: usize = 0;
        while i < self.entries.len()
            invariant
                i <= self.entries@.len(),
                find_entry(self.entries@, bus_no@, 0) == find_entry(self.entries@, bus_no@, i as int),
            decreases self.entries@.len() - i,
        {
            if str_equal(self.entries[i].bus_no.as_str(), bus_no) {
                return Some(i);
            }
            i = i + 1;
        }
        None
    }

    /// Records one position at `now_ms`: replaces the vehicle's position,
    /// re-classifies its motion and sets its last-seen time, and advances
    /// the ingest heartbeat. `drift_m` is the distance in metres from the
    /// position to the anchor of the vehicle's current motion state.
    /// A position without a vehicle number is ignored (`false`).
    pub fn write(&mut self, bus: &BusPosition, drift_m: u64, now_ms: i64) -> (r: bool)
        requires
            old(self).wf(),
        ensures
            final(self).wf(),
            r == (bus.bus_no@.len() > 0),
            r ==> final(self).entries@ == written(old(self).entries@, *bus, drift_m as nat, now_ms as int),
            r ==> final(self).last_ingest_at_unix_ms == Some(now_ms),
            !r ==> *final(self) == *old(self),
    {
        if bus.bus_no.as_str().unicode_len() == 0 {
            return false;
        }
        let found = self.find(bus.bus_no.as_str());
        proof {
            lemma_find_entry(self.entries@, bus.bus_no@, 0);
        }
        let prior: Option<&BusMotionState> = match found {
            Some(k) => match &self.entries[k].motion {
                Some(m) => Some(m),
                None => None,
            },
            None => None,
        };
        let motion = update_bus_motion_state(prior, bus, drift_m, now_ms);
        let e = FleetEntry {
            bus_no: bus.bus_no.clone(),
            position: Some(bus.clone()),
            motion: Some(motion),
            last_seen_unix_ms: now_ms,
        };
        let ghost s = self.entries@;
        match found {
            Some(k) => {
                self.entries.set(k, e);
            },
            None => {
                self.entries.push(e);
            },
        }
        self.last_ingest_at_unix_ms = Some(now_ms);
        proof {
            assert(self.entries@ == written(s, *bus, drift_m as nat, now_ms as int));
            assert forall|i: int, j: int| 0 <= i < j < self.entries@.len() implies self.entries@[i].bus_no@
                != self.entries@[j].bus_no@ by {
                if found is None {
                    if j == s.len() {
                        assert(self.entries@[i] == s[i]);
                    }
                }
            }
        }
        true
    }
}

/// What a snapshot hands to queries: the active vehicles' positions and
/// motion states, how many vehicles are active, and the ingest heartbeat.
pub struct FleetSnapshot {
    pub buses: Vec<BusPosition>,
    pub motion_states: Vec<(String, BusMotionState)>,
    pub active_bus_count: usize,
    pub last_ingest_at_unix_ms: Option<i64>,
}

pub proof fn lemma_active_entries(s: Seq<FleetEntry>, ttl: int, now: int)
    ensures
        active_entries(s, ttl, now).len() <= s.len(),
        forall|k: int|
            0 <= k < active_entries(s, ttl, now).len() ==> s.contains(
                #[trigger] active_entries(s, ttl, now)[k],
            ) && is_active(active_entries(s, ttl, now)[k].last_seen_unix_ms as int, ttl, now),
        forall|k: int|
            0 <= k < s.len() && is_active(s[k].last_seen_unix_ms as int, ttl, now)
                ==> active_entries(s, ttl, now).contains(#[trigger] s[k]),
        keys_unique(s) ==> keys_unique(active_entries(s, ttl, now)),
    decreases s.len(),
{
    if s.len() > 0 {
        let d = s.drop_last();
        lemma_active_entries(d, ttl, now);
        let p = active_entries(d, ttl, now);
        assert forall|k: int| 0 <= k < d.len() implies s.contains(#[trigger] d[k]) by {
            assert(s[k] == d[k]);
        }
        assert forall|k: int| 0 <= k < p.len() implies s.contains(#[trigger] p[k]) by {
            assert(d.contains(p[k]));
        }
        if is_active(s.last().last_seen_unix_ms as int, ttl, now) {
            let q = p.push(s.last());
            assert forall|k: int| 0 <= k < q.len() implies s.contains(#[trigger] q[k]) && is_active(
                q[k].last_seen_unix_ms as int,
                ttl,
                now,
            ) by {
                if k < p.len() {
                    assert(q[k] == p[k]);
                } else {
                    assert(s[s.len() - 1] == s.last());
                }
            }
            assert forall|k: int|
                0 <= k < s.len() && is_active(s[k].last_seen_unix_ms as int, ttl, now)
                    implies q.contains(#[trigger] s[k]) by {
                if k < d.len() {
                    assert(s[k] == d[k]);
                    let j = choose|j: int| 0 <= j < p.len() && p[j] == d[k];
                    assert(q[j] == p[j]);
                } else {
                    assert(q[p.len() as int] == s.last());
                }
            }
            if keys_unique(s) {
                assert forall|i: int, j: int| 0 <= i < j < q.len() implies q[i].bus_no@
                    != q[j].bus_no@ by {
                    if j == p.len() {
                        assert(q[i] == p[i]);
                        assert(d.contains(p[i]));
                        let m = choose|m: int| 0 <= m < d.len() && d[m] == p[i];
                        assert(s[m] == d[m]);
                        assert(s[s.len() - 1] == s.last());
                    } else {
                        assert(q[i] == p[i]);
                        assert(q[j] == p[j]);
                    }
                }
            }
        } else {
            assert forall|k: int|
                0 <= k < s.len() && is_active(s[k].last_seen_unix_ms as int, ttl, now)
                    implies p.contains(#[trigger] s[k]) by {
                assert(k < d.len());
                assert(s[k] == d[k]);
            }
        }
    }
}

impl FleetCache {
    /// Evicts every vehicle last seen at or before `now_ms - ttl_ms` from
    /// all three indexes and returns the snapshot of the vehicles that
    /// remain, with the evicted vehicle numbers.
    pub fn snapshot(&mut self, ttl_ms: i64, now_ms: i64) -> (r: (FleetSnapshot, Vec<String>))
        requires
            old(self).wf(),
        ensures
            final(self).wf(),
            final(self).entries@ == active_entries(old(self).entries@, ttl_ms as int, now_ms as int),
            final(self).last_ingest_at_unix_ms == old(self).last_ingest_at_unix_ms,
            r.0.buses@ == positions_of(final(self).entries@),
            r.0.motion_states@ == motions_of(final(self).entries@),
            r.0.active_bus_count == final(self).entries@.len(),
            r.0.last_ingest_at_unix_ms == old(self).last_ingest_at_unix_ms,
            r.1@ == evicted_ids(old(self).entries@, ttl_ms as int, now_ms as int),
    {
        let ghost s = self.entries@;
        let ghost ttl = ttl_ms as int;
        let ghost now = now_ms as int;
        let cutoff: i128 = (now_ms as i128) - (ttl_ms as i128);
        let mut kept: Vec<FleetEntry> = Vec::new();
        let mut evicted: Vec<String> = Vec::new();
        let mut buses: Vec<BusPosition> = Vec::new();
        let mut motions: Vec<(String, BusMotionState)> = Vec::new();
        let mut i: usize = 0;
        while i < self.entries.len()
            invariant
                s == self.entries@,
                cutoff == now - ttl,
                i <= s.len(),
                kept@ == active_entries(s.subrange(0, i as int), ttl, now),
                evicted@ == evicted_ids(s.subrange(0, i as int), ttl, now),
                buses@ == positions_of(kept@),
                motions@ == motions_of(kept@),
            decreases s.len() - i,
        {
            let e = self.entries[i].clone();
            proof {
                assert(s.subrange(0, i + 1).drop_last() =~= s.subrange(0, i as int));
                assert(s.subrange(0, i + 1).last() == s[i as int]);
            }
            if (e.last_seen_unix_ms as i128) > cutoff {
                let ghost k0 = kept@;
                match &e.position {
                    Some(b) => buses.push(b.clone()),
                    None => {},
                }
                match e.motion {
                    Some(m) => motions.push((e.bus_no.clone(), m)),
                    None => {},
                }
                kept.push(e);
                proof {
                    assert(kept@.drop_last() =~= k0);
                }
            } else {
                evicted.push(e.bus_no);
            }
            i = i + 1;
        }
        proof {
            assert(s.subrange(0, s.len() as int) =~= s);
            lemma_active_entries(s, ttl, now);
        }
        let count = kept.len();
        self.entries = kept;
        (
            FleetSnapshot {
                buses,
                motion_states: motions,
                active_bus_count: count,
                last_ingest_at_unix_ms: self.last_ingest_at_unix_ms,
            },
            evicted,
        )
    }
}

/// A vehicle written at `t_write` is in a snapshot taken at `t_read`
/// exactly when less than `ttl` has passed: it is there with the written
/// position while `t_read - t_write < ttl` (so right after the write for any
/// positive `ttl`), and once `ttl` or more has passed the snapshot leaves
/// no entry for it in any of the three indexes.
pub proof fn lemma_write_then_snapshot(
    s: Seq<FleetEntry>,
    bus: BusPosition,
    drift_m: nat,
    t_write: i64,
    ttl: int,
    t_read: int,
)
    requires
        keys_unique(s),
        bus.bus_no@.len() > 0,
    ensures
        t_read - t_write < ttl ==> exists|k: int|
            0 <= k < active_entries(written(s, bus, drift_m, t_write as int), ttl, t_read).len()
                && (#[trigger] active_entries(written(s, bus, drift_m, t_write as int), ttl, t_read)[k]).bus_no
                == bus.bus_no && active_entries(
                written(s, bus, drift_m, t_write as int),
                ttl,
                t_read,
            )[k].position == Some(bus),
        t_read - t_write >= ttl ==> forall|k: int|
            0 <= k < active_entries(written(s, bus, drift_m, t_write as int), ttl, t_read).len()
                ==> (#[trigger] active_entries(written(s, bus, drift_m, t_write as int), ttl, t_read)[k]).bus_no@
                != bus.bus_no@,
{
    let id = bus.bus_no@;
    let after = written(s, bus, drift_m, t_write as int);
    let k = find_entry(s, id, 0);
    lemma_find_entry(s, id, 0);
    let w = if k < s.len() {
        k
    } else {
        s.len() as int
    };
    assert(after[w].bus_no == bus.bus_no && after[w].position == Some(bus)
        && after[w].last_seen_unix_ms == t_write);
    assert forall|j: int| 0 <= j < after.len() && j != w implies after[j].bus_no@ != id by {
        assert(after[j] == s[j]);
        if k < s.len() && j > k {
            assert(s[k].bus_no@ != s[j].bus_no@);
        }
    }
    lemma_active_entries(after, ttl, t_read);
    let a = active_entries(after, ttl, t_read);
    if t_read - t_write < ttl {
        assert(a.contains(after[w]));
        let j = choose|j: int| 0 <= j < a.len() && a[j] == after[w];
        assert(a[j].bus_no == bus.bus_no);
    }
    if t_read - t_write >= ttl {
        assert forall|m: int| 0 <= m < a.len() implies (#[trigger] a[m]).bus_no@ != id by {
            assert(after.contains(a[m]));
            let j = choose|j: int| 0 <= j < after.len() && after[j] == a[m];
            if j == w {
                assert(!is_active(a[m].last_seen_unix_ms as int, ttl, t_read));
            }
        }
    }
}

/// The motion state recorded for vehicle `id` in `ms` from position `i` on.
pub open spec fn motion_from(ms: Seq<(String, BusMotionState)>, id: Seq<char>, i: int) -> Option<
    BusMotionState,
>
    decreases ms.len() - i,
{
    if i < 0 || i >= ms.len() {
        None
    } else if ms[i].0@ == id {
        Some(ms[i].1)
    } else {
        motion_from(ms, id, i + 1)
    }
}

/// A vehicle is stationary when its recorded motion state says so; one
/// never classified is not.
pub open spec fn bus_stationary(ms: Seq<(String, BusMotionState)>, id: Seq<char>, now: int) -> bool {
    match motion_from(ms, id, 0) {
        Some(m) => stationary_at(m, now),
        None => false,
    }
}

/// The first `n` positions without the stationary vehicles, in order.
pub open spec fn non_stationary(
    buses: Seq<BusPosition>,
    ms: Seq<(String, BusMotionState)>,
    now: int,
    n: int,
) -> Seq<BusPosition>
    decreases n,
{
    if n <= 0 {
        Seq::empty()
    } else {
        let p = non_stationary(buses, ms, now, n - 1);
        if bus_stationary(ms, buses[n - 1].bus_no@, now) {
            p
        } else {
            p.push(buses[n - 1])
        }
    }
}

/// Whether vehicle `bus_no` of the snapshot is stationary at `now_ms`.
pub fn is_bus_stationary(snapshot: &FleetSnapshot, bus_no: &str, now_ms: i64) -> (r: bool)
    ensures
        r == bus_stationary(snapshot.motion_states@, bus_no@, now_ms as int),
{
    let ms = &snapshot.motion_states;
    let mut i: usize = 0;
    while i < ms.len()
        invariant
            ms == &snapshot.motion_states,
            i <= ms@.len(),
            motion_from(ms@, bus_no@, 0) == motion_from(ms@, bus_no@, i as int),
        decreases ms@.len() - i,
    {
        if str_equal(ms[i].0.as_str(), bus_no) {
            return ms[i].1.is_stationary(now_ms);
        }
        i = i + 1;
    }
    false
}

/// The snapshot's positions without the vehicles stationary at `now_ms`.
pub fn filter_non_stationary_buses(snapshot: &FleetSnapshot, now_ms: i64) -> (r: Vec<BusPosition>)
    ensures
        r@ == non_stationary(
            snapshot.buses@,
            snapshot.motion_states@,
            now_ms as int,
            snapshot.buses@.len() as int,
        ),
{
    let mut out: Vec<BusPosition> = Vec::new();
    let mut i: usize = 0;
    while i < snapshot.buses.len()
        invariant
            i <= snapshot.buses@.len(),
            out@ == non_stationary(snapshot.buses@, snapshot.motion_states@, now_ms as int, i as int),
        decreases snapshot.buses@.len() - i,
    {
        let b = &snapshot.buses[i];
        if !is_bus_stationary(snapshot, b.bus_no.as_str(), now_ms) {
            out.push(b.clone());
        }
        i = i + 1;
    }
    out
}

/// No vehicle that is stationary at `now` survives the filter, so none
/// reaches the arrival estimates; every other vehicle does.
pub proof fn lemma_stationary_excluded(
    buses: Seq<BusPosition>,
    ms: Seq<(String, BusMotionState)>,
    now: int,
    n: int,
)
    requires
        0 <= n <= buses.len(),
    ensures
        forall|k: int|
            0 <= k < non_stationary(buses, ms, now, n).len() ==> !bus_stationary(
                ms,
                (#[trigger] non_stationary(buses, ms, now, n)[k]).bus_no@,
                now,
            ),
        forall|j: int|
            0 <= j < n && !bus_stationary(ms, buses[j].bus_no@, now) ==> non_stationary(
                buses,
                ms,
                now,
                n,
            ).contains(#[trigger] buses[j]),
    decreases n,
{
    if n > 0 {
        lemma_stationary_excluded(buses, ms, now, n - 1);
        let p = non_stationary(buses, ms, now, n - 1);
        if !bus_stationary(ms, buses[n - 1].bus_no@, now) {
            let q = p.push(buses[n - 1]);
            assert forall|k: int| 0 <= k < q.len() implies !bus_stationary(
                ms,
                (#[trigger] q[k]).bus_no@,
                now,
            ) by {
                if k < p.len() {
                    assert(q[k] == p[k]);
                }
            }
            assert forall|j: int|
                0 <= j < n && !bus_stationary(ms, buses[j].bus_no@, now) implies q.contains(
                #[trigger] buses[j],
            ) by {
                if j < n - 1 {
                    let i = choose|i: int| 0 <= i < p.len() && p[i] == buses[j];
                    assert(q[i] == p[i]);
                } else {
                    assert(q[p.len() as int] == buses[j]);
                }
            }
        }
    }
}

} // verus!
