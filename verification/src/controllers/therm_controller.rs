//! The thermometer controller. A background listener (unverified glue
//! around this module) feeds every received datagram and every poll
//! tick into the functions here; they keep the latest reading, its
//! freshness, and the subscription bookkeeping, and decide what each
//! event publishes.

use vstd::prelude::*;

use crate::devices::{therm_report, SmartTherm};
use crate::protocol::therm_protocol::{parse_therm_data, parse_therm_json};
use crate::units::{Celsius, ABSOLUTE_ZERO_CENTI};

verus! {

/// Failures a thermometer read reports to its caller.
#[derive(Debug, Clone, PartialEq)]
pub enum ThermError {
    /// No sample was ever received, or the latest one is too old.
    NoFreshData,
    /// The notification channel or the socket failed.
    NetworkError(String),
    /// The internal guard failed; a bug, not a network fault.
    LockError,
}

// ---------------------------------------------------------------------------
// Subscriptions
// ---------------------------------------------------------------------------

/// Pub/sub bookkeeping: subscription ids, strictly increasing, each
/// carrying one subscriber value (a callback, outside this crate's
/// view). Notification works on a momentary snapshot of the ids, so a
/// subscriber removing itself or another during delivery is safe.
pub struct SubscriptionRegistry<V> {
    entries: Vec<(u64, V)>,
    next_id: u64,
}

impl<V> SubscriptionRegistry<V> {
    pub closed spec fn spec_entries(&self) -> Seq<(u64, V)> {
        self.entries@
    }

    pub closed spec fn spec_next_id(&self) -> u64 {
        self.next_id
    }

    /// Ids are strictly increasing and all below the next free id.
    pub open spec fn wf(&self) -> bool {
        &&& forall|i: int, j: int|
            0 <= i < j < self.spec_entries().len() ==> #[trigger] self.spec_entries()[i].0
                < #[trigger] self.spec_entries()[j].0
        &&& forall|i: int|
            0 <= i < self.spec_entries().len() ==> #[trigger] self.spec_entries()[i].0
                < self.spec_next_id()
    }

    pub open spec fn contains_id(&self, id: u64) -> bool {
        exists|i: int|
            0 <= i < self.spec_entries().len() && #[trigger] self.spec_entries()[i].0 == id
    }

    /// The ids notification would deliver to, in registration order.
    pub open spec fn ids_seq(&self) -> Seq<u64> {
        Seq::new(self.spec_entries().len(), |i: int| self.spec_entries()[i].0)
    }

    pub fn new() -> (r: SubscriptionRegistry<V>)
        ensures
            r.spec_entries().len() == 0,
            r.spec_next_id() == 0,
            r.wf(),
    {
        SubscriptionRegistry { entries: Vec::new(), next_id: 0 }
    }

    /// Registers a subscriber under a fresh id, strictly above every
    /// id ever handed out.
    pub fn register(&mut self, v: V) -> (id: u64)
        requires
            old(self).wf(),
            old(self).spec_next_id() < u64::MAX,
        ensures
            final(self).wf(),
            id == old(self).spec_next_id(),
            !old(self).contains_id(id),
            final(self).contains_id(id),
            final(self).spec_entries() == old(self).spec_entries().push((id, v)),
            final(self).spec_next_id() == id + 1,
    {
        let id = self.next_id;
        proof {
            if old(self).contains_id(id) {
                let w = choose|w: int|
                    0 <= w < old(self).spec_entries().len() && #[trigger] old(
                        self,
                    ).spec_entries()[w].0 == id;
                assert(old(self).spec_entries()[w].0 < old(self).spec_next_id());
            }
        }
        self.entries.push((id, v));
        self.next_id = id + 1;
        proof {
            let pre = old(self).spec_entries();
            let es = self.entries@;
            assert(es == pre.push((id, v)));
            assert(pre.push((id, v))[pre.len() as int] == (id, v));
            assert forall|k: int| 0 <= k < pre.len() implies es[k] == pre[k] by {
                assert(pre.push((id, v))[k] == pre[k]);
            }
            assert forall|a: int, b: int| 0 <= a < b < es.len() implies es[a].0 < es[b].0 by {
                assert(pre[a].0 < old(self).spec_next_id());
                if b < pre.len() {
                    assert(pre[a].0 < pre[b].0);
                }
            }
            assert forall|k: int| 0 <= k < es.len() implies #[trigger] es[k].0
                < self.next_id by {
                if k < pre.len() {
                    assert(pre[k].0 < old(self).spec_next_id());
                }
            }
            assert(self.spec_entries()[pre.len() as int].0 == id);
            assert(self.contains_id(id));
        }
        id
    }

    /// Removes the subscription under `id`, if any; removing it twice
    /// is a no-op. Afterwards the id is gone from the notification
    /// snapshot, and every other subscription is untouched.
    pub fn unregister(&mut self, id: u64)
        requires
            old(self).wf(),
        ensures
            final(self).wf(),
            final(self).spec_next_id() == old(self).spec_next_id(),
            !final(self).contains_id(id),
            forall|j: u64| j != id ==> final(self).contains_id(j) == old(self).contains_id(j),
            old(self).contains_id(id) ==> final(self).spec_entries().len() == old(self).spec_entries().len() - 1,
            !old(self).contains_id(id) ==> final(self).spec_entries() == old(
                self,
            ).spec_entries(),
    {
        let n = self.entries.len();
        let mut i: usize = 0;
        while i < n
            invariant
                old(self).wf(),
                self.entries@ == old(self).spec_entries(),
                self.next_id == old(self).spec_next_id(),
                n == self.entries@.len(),
                0 <= i <= n,
                forall|k: int| 0 <= k < i ==> #[trigger] self.entries@[k].0 != id,
            decreases n - i,
        {
            if self.entries[i].0 == id {
                self.entries.remove(i);
                proof {
                    let before = old(self).spec_entries();
                    let es = self.entries@;
                    assert(es =~= before.remove(i as int));
                    assert forall|k: int| 0 <= k < es.len() implies #[trigger] es[k].0 != id by {
                        if k < i {
                            assert(es[k] == before[k]);
                        } else {
                            assert(es[k] == before[k + 1]);
                            assert(before[i as int].0 < before[k + 1].0);
                        }
                    }
                    assert(!self.contains_id(id));
                    assert forall|a: int, b: int| 0 <= a < b < es.len() implies es[a].0
                        < es[b].0 by {
                        let a0: int = if a < i {
                            a
                        } else {
                            a + 1
                        };
                        let b0: int = if b < i {
                            b
                        } else {
                            b + 1
                        };
                        assert(before[a0].0 < before[b0].0);
                    }
                    assert forall|k: int| 0 <= k < es.len() implies #[trigger] es[k].0
                        < self.next_id by {
                        let k0: int = if k < i {
                            k
                        } else {
                            k + 1
                        };
                        assert(before[k0].0 < old(self).spec_next_id());
                    }
                    assert forall|j: u64|
                        j != id && old(self).contains_id(j) implies self.contains_id(j) by {
                        let w = choose|w: int|
                            0 <= w < old(self).spec_entries().len() && #[trigger] old(
                                self,
                            ).spec_entries()[w].0 == j;
                        if w < i {
                            assert(es[w] == before[w]);
                            assert(self.spec_entries()[w].0 == j);
                        } else {
                            assert(w != i);
                            assert(es[w - 1] == before[w]);
                            assert(self.spec_entries()[w - 1].0 == j);
                        }
                    }
                    assert forall|j: u64|
                        j != id && self.contains_id(j) implies old(self).contains_id(j) by {
                        let w = choose|w: int|
                            0 <= w < self.spec_entries().len() && #[trigger] self.spec_entries()[w].0
                                == j;
                        if w < i {
                            assert(es[w] == before[w]);
                            assert(old(self).spec_entries()[w].0 == j);
                        } else {
                            assert(es[w] == before[w + 1]);
                            assert(old(self).spec_entries()[w + 1].0 == j);
                        }
                    }
                    assert(old(self).contains_id(id));
                }
                return ;
            }
            i += 1;
        }
        proof {
            assert(!old(self).contains_id(id));
        }
    }

    /// The momentary snapshot of subscribed ids, in order.
    pub fn ids(&self) -> (r: Vec<u64>)
        ensures
            r@ == self.ids_seq(),
    {
        let mut out: Vec<u64> = Vec::new();
        let n = self.entries.len();
        let mut i: usize = 0;
        while i < n
            invariant
                n == self.entries@.len(),
                0 <= i <= n,
                out@.len() == i,
                forall|k: int| 0 <= k < i ==> out@[k] == #[trigger] self.entries@[k].0,
            decreases n - i,
        {
            out.push(self.entries[i].0);
            i += 1;
        }
        proof {
            assert(out@ =~= self.ids_seq());
        }
        out
    }

    /// The subscriber registered under `id`, if it still is.
    pub fn get(&self, id: u64) -> (r: Option<&V>)
        requires
            self.wf(),
        ensures
            match r {
                Some(v) => self.contains_id(id) && exists|i: int|
                    0 <= i < self.spec_entries().len() && #[trigger] self.spec_entries()[i] == (
                    id,
                    *v,
                ),
                None => !self.contains_id(id),
            },
    {
        let n = self.entries.len();
        let mut i: usize = 0;
        while i < n
            invariant
                n == self.entries@.len(),
                0 <= i <= n,
                forall|k: int| 0 <= k < i ==> #[trigger] self.entries@[k].0 != id,
            decreases n - i,
        {
            if self.entries[i].0 == id {
                proof {
                    assert(self.spec_entries()[i as int] == (id, self.entries@[i as int].1));
                }
                return Some(&self.entries[i].1);
            }
            i += 1;
        }
        None
    }

    /// How many subscriptions stand.
    pub fn len(&self) -> (r: usize)
        ensures
            r == self.spec_entries().len(),
    {
        self.entries.len()
    }
}

/// An id never again found in the registry is never again in any
/// notification snapshot: after unsubscribing, no further delivery
/// can name the removed subscription.
pub proof fn lemma_unsubscribed_not_notified<V>(reg: SubscriptionRegistry<V>, id: u64)
    requires
        !reg.contains_id(id),
    ensures
        forall|k: int| 0 <= k < reg.ids_seq().len() ==> reg.ids_seq()[k] != id,
{
    assert forall|k: int| 0 <= k < reg.ids_seq().len() implies reg.ids_seq()[k] != id by {
        if reg.spec_entries()[k].0 == id {
            assert(reg.contains_id(id));
        }
    }
}

/// A capability to end one subscription. Ending it twice is harmless;
/// the glue that owns the registry also ends it when the handle is
/// discarded, so release runs exactly once in effect.
pub struct SubscriptionHandle {
    id: u64,
}

impl SubscriptionHandle {
    pub closed spec fn spec_id(&self) -> u64 {
        self.id
    }

    pub fn new(id: u64) -> (r: SubscriptionHandle)
        ensures
            r.spec_id() == id,
    {
        SubscriptionHandle { id }
    }

    pub fn id(&self) -> (r: u64)
        ensures
            r == self.spec_id(),
    {
        self.id
    }

    /// Ends the subscription this handle names.
    pub fn unsubscribe<V>(self, reg: &mut SubscriptionRegistry<V>)
        requires
            old(reg).wf(),
        ensures
            final(reg).wf(),
            !final(reg).contains_id(self.spec_id()),
            forall|j: u64|
                j != self.spec_id() ==> final(reg).contains_id(j) == old(reg).contains_id(j),
    {
        reg.unregister(self.id);
    }
}

// ---------------------------------------------------------------------------
// The controller
// ---------------------------------------------------------------------------

/// What one listener event publishes to the broadcast slot and to the
/// subscribers: a fresh reading, a staleness alarm, or nothing.
#[derive(Debug, Clone, PartialEq)]
pub enum ThermEvent {
    Fresh(Celsius),
    Stale,
    Silent,
}

/// The thermometer controller's own state: the mirrored thermometer,
/// the listen address, the freshness window, the time of the last
/// accepted sample (zero until one arrives), and the running flag.
pub struct ThermController {
    therm: SmartTherm,
    listen_addr: String,
    max_age_ms: u64,
    last_update: u64,
    running: bool,
}

impl ThermController {
    pub closed spec fn spec_therm(&self) -> SmartTherm {
        self.therm
    }

    pub closed spec fn spec_listen_addr(&self) -> Seq<char> {
        self.listen_addr@
    }

    pub closed spec fn spec_max_age_ms(&self) -> u64 {
        self.max_age_ms
    }

    pub closed spec fn spec_last_update(&self) -> u64 {
        self.last_update
    }

    pub closed spec fn spec_running(&self) -> bool {
        self.running
    }

    pub open spec fn wf(&self) -> bool {
        self.spec_therm().wf()
    }

    /// A sample was received and, read at time `now`, is still within
    /// the freshness window. A clock reading behind the sample's stamp
    /// counts as fresh rather than failing the read.
    pub open spec fn has_fresh(&self, now: u64) -> bool {
        &&& self.spec_last_update() != 0
        &&& (now < self.spec_last_update() || now - self.spec_last_update()
            <= self.spec_max_age_ms())
    }

    /// A sample was received and its age exceeds the freshness window.
    pub open spec fn is_stale(&self, now: u64) -> bool {
        self.spec_last_update() != 0 && !self.has_fresh(now)
    }

    /// A new controller: no sample yet, not running.
    pub fn new(initial_temp: Celsius, listen_addr: &str, max_age_ms: u64) -> (r: ThermController)
        requires
            initial_temp.wf(),
        ensures
            r.spec_therm().spec_temperature() == initial_temp,
            r.spec_listen_addr() == listen_addr@,
            r.spec_max_age_ms() == max_age_ms,
            r.spec_last_update() == 0,
            !r.spec_running(),
            r.wf(),
    {
        ThermController {
            therm: SmartTherm::new(initial_temp),
            listen_addr: listen_addr.to_owned(),
            max_age_ms,
            last_update: 0,
            running: false,
        }
    }

    /// The latest temperature as of time `now`: the reading while a
    /// fresh sample stands, and the no-fresh-data failure when none
    /// was ever received or the last one has aged out.
    pub fn temperature_at(&self, now: u64) -> (r: Result<Celsius, ThermError>)
        ensures
            r == if self.has_fresh(now) {
                Ok::<Celsius, ThermError>(self.spec_therm().spec_temperature())
            } else {
                Err::<Celsius, ThermError>(ThermError::NoFreshData)
            },
    {
        if self.last_update == 0 {
            return Err(ThermError::NoFreshData);
        }
        if now >= self.last_update && now - self.last_update > self.max_age_ms {
            return Err(ThermError::NoFreshData);
        }
        Ok(self.therm.temperature())
    }

    /// The latest temperature, aged against the clock now. Whatever
    /// the clock reads: a reading can only be the mirrored one, and
    /// the only failure is the no-fresh-data one; with no sample ever
    /// received it always fails.
    pub fn temperature(&self) -> (r: Result<Celsius, ThermError>)
        ensures
            match r {
                Ok(t) => t == self.spec_therm().spec_temperature() && self.spec_last_update()
                    != 0,
                Err(e) => e == ThermError::NoFreshData,
            },
            self.spec_last_update() == 0 ==> r is Err,
    {
        let now = crate::protocol::now_ms();
        self.temperature_at(now)
    }

    /// Records one accepted sample: the reading and its arrival time.
    pub fn record_sample(&mut self, t: Celsius, now: u64)
        requires
            now != 0,
            t.wf(),
        ensures
            final(self).spec_therm().spec_temperature() == t,
            final(self).spec_last_update() == now,
            final(self).spec_listen_addr() == old(self).spec_listen_addr(),
            final(self).spec_max_age_ms() == old(self).spec_max_age_ms(),
            final(self).spec_running() == old(self).spec_running(),
            final(self).has_fresh(now),
            final(self).wf(),
    {
        self.therm.set_temperature(t);
        self.last_update = now;
    }

    /// Takes one datagram received at time `now`. A payload that reads
    /// as a physical temperature updates the reading and the freshness
    /// stamp and reports the new value; anything else - unknown
    /// notation, or a reading below absolute zero - is dropped in
    /// silence and changes nothing, since a datagram sender cannot be
    /// answered.
    pub fn ingest_datagram(&mut self, payload: &[u8], now: u64) -> (r: Option<Celsius>)
        requires
            now != 0,
            old(self).wf(),
        ensures
            final(self).spec_listen_addr() == old(self).spec_listen_addr(),
            final(self).spec_max_age_ms() == old(self).spec_max_age_ms(),
            final(self).spec_running() == old(self).spec_running(),
            final(self).wf(),
            match parse_therm_json(payload@) {
                Some(m) => if m.temperature >= ABSOLUTE_ZERO_CENTI {
                    match r {
                        Some(t) => t.spec_value() == m.temperature && final(self).spec_therm().spec_temperature() == t && final(self).spec_last_update()
                            == now,
                        None => false,
                    }
                } else {
                    r is None && *final(self) == *old(self)
                },
                None => r is None && *final(self) == *old(self),
            },
    {
        match parse_therm_data(payload) {
            Ok(d) => {
                if d.temperature >= ABSOLUTE_ZERO_CENTI {
                    let t = Celsius::new(d.temperature);
                    self.record_sample(t, now);
                    Some(t)
                } else {
                    None
                }
            },
            Err(_) => None,
        }
    }

    /// What one poll tick at time `now` publishes when no datagram was
    /// available: the staleness alarm while the last sample stands
    /// aged out, and nothing otherwise. The alarm repeats on every
    /// tick for as long as the data stays stale.
    pub fn poll_event(&self, now: u64) -> (r: ThermEvent)
        ensures
            r == if self.is_stale(now) {
                ThermEvent::Stale
            } else {
                ThermEvent::Silent
            },
    {
        if self.last_update != 0 && now >= self.last_update && now - self.last_update
            > self.max_age_ms {
            ThermEvent::Stale
        } else {
            ThermEvent::Silent
        }
    }

    /// Records that the background listener runs; reports whether it
    /// already did, so a second start is a no-op.
    pub fn mark_running(&mut self) -> (was: bool)
        ensures
            was == old(self).spec_running(),
            final(self).spec_running(),
            final(self).spec_therm() == old(self).spec_therm(),
            final(self).spec_listen_addr() == old(self).spec_listen_addr(),
            final(self).spec_max_age_ms() == old(self).spec_max_age_ms(),
            final(self).spec_last_update() == old(self).spec_last_update(),
    {
        let was = self.running;
        self.running = true;
        was
    }

    /// Records that the background listener has exited.
    pub fn mark_stopped(&mut self)
        ensures
            !final(self).spec_running(),
            final(self).spec_therm() == old(self).spec_therm(),
            final(self).spec_listen_addr() == old(self).spec_listen_addr(),
            final(self).spec_max_age_ms() == old(self).spec_max_age_ms(),
            final(self).spec_last_update() == old(self).spec_last_update(),
    {
        self.running = false;
    }

    pub fn is_running(&self) -> (r: bool)
        ensures
            r == self.spec_running(),
    {
        self.running
    }

    /// A copy of the mirrored thermometer; reads nothing from the
    /// network.
    pub fn device(&self) -> (r: SmartTherm)
        ensures
            r == self.spec_therm(),
    {
        self.therm
    }

    pub fn listen_addr(&self) -> (r: String)
        ensures
            r@ == self.spec_listen_addr(),
    {
        self.listen_addr.clone()
    }

    pub fn max_age_ms(&self) -> (r: u64)
        ensures
            r == self.spec_max_age_ms(),
    {
        self.max_age_ms
    }

    pub fn last_update(&self) -> (r: u64)
        ensures
            r == self.spec_last_update(),
    {
        self.last_update
    }

    /// The report line of the mirrored thermometer.
    pub fn report(&self) -> (r: String)
        requires
            self.wf(),
        ensures
            r@ == therm_report(self.spec_therm()),
    {
        self.therm.report()
    }
}

} // verus!
