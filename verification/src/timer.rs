//! The timer service's scheduling state: a queue of timers ordered by the
//! instant at which they fire, the set of cancelled timer ids, and the step
//! that fires every due timer at a tick.
//!
//! Instants and intervals are counted in milliseconds on the service's own
//! clock; the task that drives the service reads that clock and hands the
//! reading in.
use crate::ids::next_counter;
use std::collections::HashSet;
use vstd::prelude::*;

verus! {

broadcast use {
    vstd::std_specs::hash::group_hash_axioms,
};

/// A scheduled timer.
pub struct TimerEntry {
    pub id: u64,
    /// The instant at which the timer fires.
    pub fire_at: u64,
    /// `None` for a one-shot timer; `Some(period)` for a repeating one.
    pub interval: Option<u64>,
    /// The actor that the timer's event is delivered to.
    pub actor_name: String,
}

/// What a fired timer produces: the timer's id and the actor it is meant for.
pub struct TimerEvent {
    pub timer_id: u64,
    pub actor_name: String,
}

/// What the service's task is asked to do.
pub enum TimerCommand {
    Add(TimerEntry),
    Cancel(u64),
    Stop,
}

/// The event a fired timer produces.
pub open spec fn event_of(e: TimerEntry) -> TimerEvent {
    TimerEvent { timer_id: e.id, actor_name: e.actor_name }
}

/// The entries are ordered by the instant at which they fire.
pub open spec fn sorted_by_fire_time(s: Seq<TimerEntry>) -> bool {
    forall|i: int, j: int| 0 <= i <= j < s.len() ==> s[i].fire_at <= s[j].fire_at
}

/// A repeating timer never has a period of zero.
pub open spec fn periods_positive(s: Seq<TimerEntry>) -> bool {
    forall|i: int| 0 <= i < s.len() ==> (#[trigger] s[i]).interval != Some(0u64)
}

/// Where a timer firing at `t` goes in an ordered queue: after every entry
/// that fires no later than `t`.
pub open spec fn insert_index(s: Seq<TimerEntry>, t: u64) -> nat
    decreases s.len(),
{
    if s.len() == 0 {
        0
    } else if t < s.last().fire_at {
        insert_index(s.drop_last(), t)
    } else {
        s.len()
    }
}

/// The queue `s` with `e` added in its place.
pub open spec fn insert_sorted(s: Seq<TimerEntry>, e: TimerEntry) -> Seq<TimerEntry> {
    s.insert(insert_index(s, e.fire_at) as int, e)
}

/// How many entries at the front of `s` are due at `now`.
pub open spec fn due_len(s: Seq<TimerEntry>, now: u64) -> nat
    decreases s.len(),
{
    if s.len() == 0 || s[0].fire_at > now {
        0
    } else {
        1 + due_len(s.drop_first(), now)
    }
}

/// A repeating timer armed again after firing at `now`.
pub open spec fn rearmed(e: TimerEntry, now: u64, period: u64) -> TimerEntry {
    TimerEntry { fire_at: (now + period) as u64, ..e }
}

/// Every repeating timer among `due` can be armed again after `now`
/// without leaving the clock's range.
pub open spec fn rearm_fits(due: Seq<TimerEntry>, now: u64) -> bool {
    forall|i: int|
        0 <= i < due.len() ==> match (#[trigger] due[i]).interval {
            Some(p) => now + p <= u64::MAX,
            None => true,
        }
}

/// Fires the due timers `due` one after another at `now`, starting from the
/// waiting queue `pending` and the cancelled ids `cancelled`. A cancelled
/// timer is dropped, and its id leaves the cancelled set; any other timer
/// produces its event and, if it repeats, goes back into the queue one period
/// after `now`. The result is the new queue, the new cancelled set and the
/// events in the order they were produced.
pub open spec fn fire_due(
    due: Seq<TimerEntry>,
    pending: Seq<TimerEntry>,
    cancelled: Set<u64>,
    now: u64,
) -> (Seq<TimerEntry>, Set<u64>, Seq<TimerEvent>)
    decreases due.len(),
{
    if due.len() == 0 {
        (pending, cancelled, Seq::empty())
    } else {
        let e = due[0];
        if cancelled.contains(e.id) {
            fire_due(due.drop_first(), pending, cancelled.remove(e.id), now)
        } else {
            let pending2 = match e.interval {
                Some(p) => insert_sorted(pending, rearmed(e, now, p)),
                None => pending,
            };
            let rest = fire_due(due.drop_first(), pending2, cancelled, now);
            (rest.0, rest.1, seq![event_of(e)] + rest.2)
        }
    }
}

/// What a tick at `now` makes of the queue `entries` and the cancelled ids.
pub open spec fn tick_outcome(entries: Seq<TimerEntry>, cancelled: Set<u64>, now: u64) -> (
    Seq<TimerEntry>,
    Set<u64>,
    Seq<TimerEvent>,
) {
    let k = due_len(entries, now) as int;
    fire_due(entries.take(k), entries.skip(k), cancelled, now)
}

/// The timers live in `q` have pairwise distinct ids.
pub open spec fn ids_distinct(q: Seq<TimerEntry>) -> bool {
    forall|i: int, j: int| 0 <= i < q.len() && 0 <= j < q.len() && i != j ==> q[i].id != q[j].id
}

/// The next free timer id: hands out `*counter` and moves the counter on by
/// one, wrapping at the end of the range as an atomic `fetch_add` does.
pub fn next_timer_id(counter: &mut u64) -> (id: u64)
    ensures
        id == *old(counter),
        *final(counter) == next_counter(*old(counter)),
{
    let id = *counter;
    *counter = counter.wrapping_add(1);
    id
}

/// The timer service's id counter; the first id it hands out is 1.
pub struct TimerIds {
    next: u64,
}

impl TimerIds {
    /// The id the next call of `next` hands out.
    pub closed spec fn counter(&self) -> u64 {
        self.next
    }

    pub fn new() -> (g: TimerIds)
        ensures
            g.counter() == 1,
    {
        TimerIds { next: 1 }
    }

    /// The next timer id.
    pub fn next(&mut self) -> (id: u64)
        ensures
            id == old(self).counter(),
            final(self).counter() == next_counter(old(self).counter()),
    {
        next_timer_id(&mut self.next)
    }
}

impl TimerEntry {
    /// The entry for a timer added at `now`: it first fires `delay` after
    /// `now`, and repeats with period `delay` when `is_interval` holds.
    pub fn new(id: u64, actor_name: &str, now: u64, delay: u64, is_interval: bool) -> (e: TimerEntry)
        requires
            now + delay <= u64::MAX,
        ensures
            e.id == id,
            e.fire_at == now + delay,
            e.interval == (if is_interval { Some(delay) } else { None::<u64> }),
            e.actor_name@ == actor_name@,
    {
        TimerEntry {
            id,
            fire_at: now + delay,
            interval: if is_interval { Some(delay) } else { None },
            actor_name: actor_name.to_owned(),
        }
    }

    /// A copy of the entry.
    pub fn duplicate(&self) -> (e: TimerEntry)
        ensures
            e == *self,
    {
        TimerEntry {
            id: self.id,
            fire_at: self.fire_at,
            interval: self.interval,
            actor_name: self.actor_name.clone(),
        }
    }
}

/// The scheduling state of the timer service.
pub struct TimerQueue {
    entries: Vec<TimerEntry>,
    cancelled: HashSet<u64>,
}

impl TimerQueue {
    /// The waiting timers, earliest first.
    pub closed spec fn pending(&self) -> Seq<TimerEntry> {
        self.entries@
    }

    /// The ids of the timers cancelled and not yet dropped.
    pub closed spec fn cancelled_ids(&self) -> Set<u64> {
        self.cancelled@
    }

    /// The queue is ordered by fire time and holds no repeating timer of
    /// period zero; every operation keeps it so.
    #[verifier::type_invariant]
    spec fn wf(&self) -> bool {
        &&& sorted_by_fire_time(self.pending())
        &&& periods_positive(self.pending())
    }

    /// Every due repeating timer can be armed again after `now`.
    pub open spec fn tick_fits(&self, now: u64) -> bool {
        rearm_fits(self.pending().take(due_len(self.pending(), now) as int), now)
    }

    /// An empty queue.
    pub fn new() -> (q: TimerQueue)
        ensures
            q.pending() == Seq::<TimerEntry>::empty(),
            q.cancelled_ids() == Set::<u64>::empty(),
    {
        TimerQueue { entries: Vec::new(), cancelled: HashSet::new() }
    }

    /// Schedules `entry`, after every waiting timer that fires no later.
    pub fn add(&mut self, entry: TimerEntry)
        requires
            entry.interval != Some(0u64),
        ensures
            final(self).pending() == insert_sorted(old(self).pending(), entry),
            final(self).cancelled_ids() == old(self).cancelled_ids(),
    {
        proof {
            use_type_invariant(&*self);
        }
        proof {
            lemma_insert_sorted_wf(self.entries@, entry);
        }
        let mut entries: Vec<TimerEntry> = Vec::new();
        std::mem::swap(&mut entries, &mut self.entries);
        insert_entry(&mut entries, entry);
        self.entries = entries;
    }

    /// Marks the timer `id` cancelled: the next time it is due it is dropped
    /// without producing an event.
    pub fn cancel(&mut self, id: u64)
        ensures
            final(self).pending() == old(self).pending(),
            final(self).cancelled_ids() == old(self).cancelled_ids().insert(id),
    {
        proof {
            use_type_invariant(&*self);
        }
        let mut cancelled: HashSet<u64> = HashSet::new();
        std::mem::swap(&mut cancelled, &mut self.cancelled);
        cancelled.insert(id);
        self.cancelled = cancelled;
    }

    /// Carries out a command; returns `false` for `Stop`, after which the
    /// service's task ends.
    pub fn apply(&mut self, cmd: TimerCommand) -> (keep_running: bool)
        requires
            cmd matches TimerCommand::Add(e) ==> e.interval != Some(0u64),
        ensures
            keep_running == !(cmd is Stop),
            match cmd {
                TimerCommand::Add(e) => {
                    &&& final(self).pending() == insert_sorted(old(self).pending(), e)
                    &&& final(self).cancelled_ids() == old(self).cancelled_ids()
                },
                TimerCommand::Cancel(id) => {
                    &&& final(self).pending() == old(self).pending()
                    &&& final(self).cancelled_ids() == old(self).cancelled_ids().insert(id)
                },
                TimerCommand::Stop => {
                    &&& final(self).pending() == old(self).pending()
                    &&& final(self).cancelled_ids() == old(self).cancelled_ids()
                },
            },
    {
        match cmd {
            TimerCommand::Add(e) => {
                self.add(e);
                true
            },
            TimerCommand::Cancel(id) => {
                self.cancel(id);
                true
            },
            TimerCommand::Stop => false,
        }
    }

    /// Whether every due repeating timer can be armed again after `now`.
    pub fn can_tick(&self, now: u64) -> (b: bool)
        ensures
            b == self.tick_fits(now),
    {
        proof {
            use_type_invariant(self);
        }
        let ghost k = due_len(self.entries@, now) as int;
        let mut i: usize = 0;
        proof {
            lemma_due_len_bounds(self.entries@, now);
        }
        while i < self.entries.len() && self.entries[i].fire_at <= now
            invariant
                0 <= i <= k <= self.entries@.len(),
                k == due_len(self.entries@, now),
                sorted_by_fire_time(self.entries@),
                forall|j: int| 0 <= j < i ==> self.entries@[j].fire_at <= now,
                rearm_fits(self.entries@.take(i as int), now),
            decreases self.entries@.len() - i,
        {
            proof {
                lemma_due_len_at_least(self.entries@, now, i + 1);
            }
            match self.entries[i].interval {
                Some(p) => {
                    if p > u64::MAX - now {
                        proof {
                            lemma_due_len_at_least(self.entries@, now, i + 1);
                            assert(self.entries@.take(k)[i as int] == self.entries@[i as int]);
                        }
                        return false;
                    }
                },
                None => {},
            }
            i = i + 1;
            assert(rearm_fits(self.entries@.take(i as int), now)) by {
                assert forall|j: int| 0 <= j < i implies match (#[trigger] self.entries@.take(
                    i as int,
                )[j]).interval {
                    Some(p) => now + p <= u64::MAX,
                    None => true,
                } by {
                    if j < i - 1 {
                        assert(self.entries@.take(i as int)[j] == self.entries@.take(
                            (i - 1) as int,
                        )[j]);
                    }
                }
            }
        }
        proof {
            lemma_due_prefix_exact(self.entries@, now, i as int);
        }
        true
    }

    /// Fires every timer due at `now`, earliest first: a cancelled timer is
    /// dropped and its id forgotten; any other produces its event and, if it
    /// repeats, is armed again one period after `now`. Returns the events.
    pub fn tick(&mut self, now: u64) -> (events: Vec<TimerEvent>)
        requires
            old(self).tick_fits(now),
        ensures
            ({
                let out = tick_outcome(old(self).pending(), old(self).cancelled_ids(), now);
                &&& final(self).pending() == out.0
                &&& final(self).cancelled_ids() == out.1
                &&& events@ == out.2
            }),
            forall|i: int|
                0 <= i < final(self).pending().len() ==> (#[trigger] final(self).pending()[i]).fire_at
                    > now,
    {
        proof {
            use_type_invariant(&*self);
        }
        let mut entries: Vec<TimerEntry> = Vec::new();
        std::mem::swap(&mut entries, &mut self.entries);
        let mut cancelled: HashSet<u64> = HashSet::new();
        std::mem::swap(&mut cancelled, &mut self.cancelled);
        let ghost old_entries = entries@;
        let ghost old_cancelled = cancelled@;
        let mut k: usize = 0;
        proof {
            lemma_due_len_bounds(entries@, now);
        }
        while k < entries.len() && entries[k].fire_at <= now
            invariant
                entries@ == old_entries,
                0 <= k <= due_len(old_entries, now) <= old_entries.len(),
                forall|j: int| 0 <= j < k ==> old_entries[j].fire_at <= now,
            decreases old_entries.len() - k,
        {
            proof {
                lemma_due_len_at_least(old_entries, now, k + 1);
            }
            k = k + 1;
        }
        proof {
            lemma_due_prefix_exact(old_entries, now, k as int);
            lemma_rest_not_due(old_entries, now, k as int);
        }
        let ghost kk = k as int;
        let mut pending = entries.split_off(k);
        let ghost due = entries@;
        let ghost total = fire_due(due, pending@, old_cancelled, now);
        assert(due == old_entries.take(kk));
        assert(pending@ == old_entries.skip(kk));
        let mut events: Vec<TimerEvent> = Vec::new();
        let mut i: usize = 0;
        assert(due.skip(0) == due);
        while i < entries.len()
            invariant
                entries@ == due,
                0 <= i <= due.len(),
                due.len() == kk,
                kk == due_len(old_entries, now),
                due == old_entries.take(kk),
                rearm_fits(due, now),
                periods_positive(due),
                sorted_by_fire_time(pending@),
                periods_positive(pending@),
                forall|j: int| 0 <= j < pending@.len() ==> (#[trigger] pending@[j]).fire_at > now,
                total == fire_due(due, old_entries.skip(kk), old_cancelled, now),
                ({
                    let rest = fire_due(due.skip(i as int), pending@, cancelled@, now);
                    &&& rest.0 == total.0
                    &&& rest.1 == total.1
                    &&& events@ + rest.2 == total.2
                }),
            decreases due.len() - i,
        {
            let ghost cur = due.skip(i as int);
            let ghost pending_before = pending@;
            let ghost events_before = events@;
            let ghost cancelled_before = cancelled@;
            assert(cur[0] == due[i as int]);
            assert(cur.drop_first() == due.skip(i + 1));
            let id = entries[i].id;
            if cancelled.remove(&id) {
                assert(cancelled@ == cancelled_before.remove(id));
            } else {
                assert(cancelled@ == cancelled_before);
                let e = &entries[i];
                events.push(TimerEvent { timer_id: e.id, actor_name: e.actor_name.clone() });
                match e.interval {
                    Some(p) => {
                        let again = TimerEntry {
                            id: e.id,
                            fire_at: now + p,
                            interval: Some(p),
                            actor_name: e.actor_name.clone(),
                        };
                        assert(again == rearmed(due[i as int], now, p));
                        proof {
                            lemma_insert_sorted_keeps(pending@, again, now);
                        }
                        insert_entry(&mut pending, again);
                    },
                    None => {},
                }
                proof {
                    let rest = fire_due(due.skip(i + 1), pending@, cancelled@, now);
                    assert(fire_due(cur, pending_before, cancelled_before, now).2 == seq![
                        event_of(due[i as int])] + rest.2);
                    assert(events@ == events_before + seq![event_of(due[i as int])]);
                    assert(events@ + rest.2 == events_before + (seq![event_of(due[i as int])]
                        + rest.2));
                }
            }
            i = i + 1;
        }
        assert(due.skip(i as int).len() == 0);
        self.entries = pending;
        self.cancelled = cancelled;
        events
    }
}

// ---------------------------------------------------------------------------
// Laws of a tick

/// Every waiting timer is still waiting after the due ones have fired.
proof fn lemma_fire_due_keeps_pending(
    due: Seq<TimerEntry>,
    pending: Seq<TimerEntry>,
    cancelled: Set<u64>,
    now: u64,
)
    ensures
        forall|x: TimerEntry| pending.contains(x) ==> fire_due(due, pending, cancelled, now).0.contains(x),
    decreases due.len(),
{
    if due.len() > 0 {
        let e = due[0];
        if cancelled.contains(e.id) {
            lemma_fire_due_keeps_pending(due.drop_first(), pending, cancelled.remove(e.id), now);
        } else {
            let pending2 = match e.interval {
                Some(p) => insert_sorted(pending, rearmed(e, now, p)),
                None => pending,
            };
            if let Some(p) = e.interval {
                lemma_insert_sorted_members(pending, rearmed(e, now, p));
            }
            lemma_fire_due_keeps_pending(due.drop_first(), pending2, cancelled, now);
        }
    }
}

/// Everything waiting after the due timers have fired was waiting before,
/// or is a due repeating timer that fired (its event was produced) and was
/// armed again.
proof fn lemma_fire_due_queue_origin(
    due: Seq<TimerEntry>,
    pending: Seq<TimerEntry>,
    cancelled: Set<u64>,
    now: u64,
)
    ensures
        forall|x: TimerEntry|
            #![trigger fire_due(due, pending, cancelled, now).0.contains(x)]
            fire_due(due, pending, cancelled, now).0.contains(x) ==> pending.contains(x) || exists|
                j: int,
                p: u64,
            |
                0 <= j < due.len() && due[j].interval == Some(p) && x == rearmed(due[j], now, p)
                    && fire_due(due, pending, cancelled, now).2.contains(event_of(due[j])),
    decreases due.len(),
{
    if due.len() > 0 {
        let e = due[0];
        let tail = due.drop_first();
        let out = fire_due(due, pending, cancelled, now);
        if cancelled.contains(e.id) {
            lemma_fire_due_queue_origin(tail, pending, cancelled.remove(e.id), now);
            assert(out == fire_due(tail, pending, cancelled.remove(e.id), now));
            assert forall|x: TimerEntry|
                #![trigger fire_due(due, pending, cancelled, now).0.contains(x)]
                fire_due(due, pending, cancelled, now).0.contains(x) implies pending.contains(x)
                || exists|j: int, p: u64|
                0 <= j < due.len() && due[j].interval == Some(p) && x == rearmed(due[j], now, p)
                    && fire_due(due, pending, cancelled, now).2.contains(event_of(due[j])) by {
                if !pending.contains(x) {
                    let (j, p) = choose|j: int, p: u64|
                        0 <= j < tail.len() && tail[j].interval == Some(p) && x == rearmed(
                            tail[j],
                            now,
                            p,
                        ) && fire_due(tail, pending, cancelled.remove(e.id), now).2.contains(
                            event_of(tail[j]),
                        );
                    assert(due[j + 1] == tail[j]);
                }
            }
        } else {
            let pending2 = match e.interval {
                Some(p) => insert_sorted(pending, rearmed(e, now, p)),
                None => pending,
            };
            if let Some(p) = e.interval {
                lemma_insert_sorted_members(pending, rearmed(e, now, p));
            }
            lemma_fire_due_queue_origin(tail, pending2, cancelled, now);
            let rest = fire_due(tail, pending2, cancelled, now);
            assert(out.0 == rest.0);
            assert(out.2 == seq![event_of(e)] + rest.2);
            assert forall|x: TimerEntry|
                #![trigger fire_due(due, pending, cancelled, now).0.contains(x)]
                fire_due(due, pending, cancelled, now).0.contains(x) implies pending.contains(x)
                || exists|j: int, p: u64|
                0 <= j < due.len() && due[j].interval == Some(p) && x == rearmed(due[j], now, p)
                    && fire_due(due, pending, cancelled, now).2.contains(event_of(due[j])) by {
                if !pending.contains(x) {
                    if pending2.contains(x) {
                        let p = e.interval->0;
                        assert(out.2[0] == event_of(due[0]));
                        assert(due[0].interval == Some(p) && x == rearmed(due[0], now, p));
                    } else {
                        let (j, p) = choose|j: int, p: u64|
                            0 <= j < tail.len() && tail[j].interval == Some(p) && x == rearmed(
                                tail[j],
                                now,
                                p,
                            ) && rest.2.contains(event_of(tail[j]));
                        assert(due[j + 1] == tail[j]);
                        let m = choose|m: int| 0 <= m < rest.2.len() && rest.2[m] == event_of(tail[j]);
                        assert(out.2[m + 1] == rest.2[m]);
                    }
                }
            }
        }
    }
}

/// With distinct ids among the due timers, a cancelled id produces no event.
#[verifier::spinoff_prover]
proof fn lemma_fire_due_cancelled_silent(
    due: Seq<TimerEntry>,
    pending: Seq<TimerEntry>,
    cancelled: Set<u64>,
    now: u64,
    id: u64,
)
    requires
        ids_distinct(due),
        cancelled.contains(id),
    ensures
        forall|k: int|
            0 <= k < fire_due(due, pending, cancelled, now).2.len() ==> (#[trigger] fire_due(
                due,
                pending,
                cancelled,
                now,
            ).2[k]).timer_id != id,
    decreases due.len(),
{
    if due.len() > 0 {
        let e = due[0];
        let tail = due.drop_first();
        assert(ids_distinct(tail)) by {
            assert forall|i: int, j: int| 0 <= i < tail.len() && 0 <= j < tail.len() && i != j implies tail[i].id != tail[j].id by {
                assert(tail[i] == due[i + 1] && tail[j] == due[j + 1]);
            }
        }
        if cancelled.contains(e.id) {
            if e.id == id {
                lemma_fire_due_ids_from(tail, pending, cancelled.remove(e.id), now);
                assert forall|k: int|
                    0 <= k < fire_due(due, pending, cancelled, now).2.len() implies (#[trigger] fire_due(
                    due,
                    pending,
                    cancelled,
                    now,
                ).2[k]).timer_id != id by {
                    let j = choose|j: int| 0 <= j < tail.len() && fire_due(tail, pending, cancelled.remove(e.id), now).2[k] == event_of(tail[j]);
                    assert(tail[j] == due[j + 1]);
                }
            } else {
                lemma_fire_due_cancelled_silent(tail, pending, cancelled.remove(e.id), now, id);
            }
        } else {
            let pending2 = match e.interval {
                Some(p) => insert_sorted(pending, rearmed(e, now, p)),
                None => pending,
            };
            lemma_fire_due_cancelled_silent(tail, pending2, cancelled, now, id);
            let rest = fire_due(tail, pending2, cancelled, now);
            assert forall|k: int|
                0 <= k < fire_due(due, pending, cancelled, now).2.len() implies (#[trigger] fire_due(
                due,
                pending,
                cancelled,
                now,
            ).2[k]).timer_id != id by {
                if k > 0 {
                    assert(fire_due(due, pending, cancelled, now).2[k] == rest.2[k - 1]);
                }
            }
        }
    }
}

/// Every event is the event of one of the due timers.
proof fn lemma_fire_due_ids_from(
    due: Seq<TimerEntry>,
    pending: Seq<TimerEntry>,
    cancelled: Set<u64>,
    now: u64,
)
    ensures
        forall|k: int|
            0 <= k < fire_due(due, pending, cancelled, now).2.len() ==> exists|j: int|
                0 <= j < due.len() && #[trigger] fire_due(due, pending, cancelled, now).2[k]
                    == event_of(due[j]),
    decreases due.len(),
{
    if due.len() > 0 {
        let e = due[0];
        let tail = due.drop_first();
        if cancelled.contains(e.id) {
            lemma_fire_due_ids_from(tail, pending, cancelled.remove(e.id), now);
            assert forall|k: int| 0 <= k < fire_due(due, pending, cancelled, now).2.len() implies exists|j: int|
                0 <= j < due.len() && #[trigger] fire_due(due, pending, cancelled, now).2[k]
                    == event_of(due[j]) by {
                let j = choose|j: int| 0 <= j < tail.len() && fire_due(tail, pending, cancelled.remove(e.id), now).2[k] == event_of(tail[j]);
                assert(tail[j] == due[j + 1]);
            }
        } else {
            let pending2 = match e.interval {
                Some(p) => insert_sorted(pending, rearmed(e, now, p)),
                None => pending,
            };
            lemma_fire_due_ids_from(tail, pending2, cancelled, now);
            let rest = fire_due(tail, pending2, cancelled, now);
            assert forall|k: int| 0 <= k < fire_due(due, pending, cancelled, now).2.len() implies exists|j: int|
                0 <= j < due.len() && #[trigger] fire_due(due, pending, cancelled, now).2[k]
                    == event_of(due[j]) by {
                if k == 0 {
                    assert(fire_due(due, pending, cancelled, now).2[0] == event_of(due[0]));
                } else {
                    assert(fire_due(due, pending, cancelled, now).2[k] == rest.2[k - 1]);
                    let j = choose|j: int| 0 <= j < tail.len() && rest.2[k - 1] == event_of(tail[j]);
                    assert(tail[j] == due[j + 1]);
                }
            }
        }
    }
}

/// A due timer whose id is not cancelled fires, and, if it repeats, is
/// armed again.
proof fn lemma_fire_due_fires(
    due: Seq<TimerEntry>,
    pending: Seq<TimerEntry>,
    cancelled: Set<u64>,
    now: u64,
    j: int,
)
    requires
        ids_distinct(due),
        0 <= j < due.len(),
        !cancelled.contains(due[j].id),
    ensures
        fire_due(due, pending, cancelled, now).2.contains(event_of(due[j])),
        forall|p: u64|
            due[j].interval == Some(p) ==> #[trigger] fire_due(due, pending, cancelled, now).0.contains(
                rearmed(due[j], now, p),
            ),
    decreases due.len(),
{
    let e = due[0];
    let tail = due.drop_first();
    assert(ids_distinct(tail)) by {
        assert forall|a: int, b: int| 0 <= a < tail.len() && 0 <= b < tail.len() && a != b implies tail[a].id != tail[b].id by {
            assert(tail[a] == due[a + 1] && tail[b] == due[b + 1]);
        }
    }
    let pending2 = match e.interval {
        Some(p) => insert_sorted(pending, rearmed(e, now, p)),
        None => pending,
    };
    if j == 0 {
        let out = fire_due(due, pending, cancelled, now);
        assert(out.2[0] == event_of(due[0]));
        if let Some(p) = e.interval {
            lemma_insert_sorted_members(pending, rearmed(e, now, p));
            lemma_fire_due_keeps_pending(tail, pending2, cancelled, now);
        }
    } else {
        assert(tail[j - 1] == due[j]);
        if cancelled.contains(e.id) {
            assert(e.id != due[j].id);
            lemma_fire_due_fires(tail, pending, cancelled.remove(e.id), now, j - 1);
        } else {
            lemma_fire_due_fires(tail, pending2, cancelled, now, j - 1);
            let rest = fire_due(tail, pending2, cancelled, now);
            let k = choose|k: int| 0 <= k < rest.2.len() && rest.2[k] == event_of(due[j]);
            assert(fire_due(due, pending, cancelled, now).2[k + 1] == event_of(due[j]));
        }
    }
}

proof fn lemma_distinct_parts(entries: Seq<TimerEntry>, k: int)
    requires
        ids_distinct(entries),
        0 <= k <= entries.len(),
    ensures
        ids_distinct(entries.take(k)),
        forall|i: int, j: int|
            0 <= i < k && 0 <= j < entries.len() - k ==> #[trigger] entries.take(k)[i].id != #[trigger] entries.skip(k)[j].id,
{
    assert forall|a: int, b: int| 0 <= a < k && 0 <= b < k && a != b implies entries.take(k)[a].id != entries.take(k)[b].id by {
        assert(entries.take(k)[a] == entries[a] && entries.take(k)[b] == entries[b]);
    }
    assert forall|i: int, j: int| 0 <= i < k && 0 <= j < entries.len() - k implies #[trigger] entries.take(k)[i].id != #[trigger] entries.skip(k)[j].id by {
        assert(entries.take(k)[i] == entries[i] && entries.skip(k)[j] == entries[k + j]);
    }
}

/// A cancelled timer never fires: when the live timers have distinct ids
/// and `id` is cancelled, a tick produces no event for `id`.
pub proof fn law_cancelled_timer_never_fires(
    entries: Seq<TimerEntry>,
    cancelled: Set<u64>,
    now: u64,
    id: u64,
)
    requires
        ids_distinct(entries),
        cancelled.contains(id),
    ensures
        forall|k: int|
            0 <= k < tick_outcome(entries, cancelled, now).2.len() ==> (#[trigger] tick_outcome(
                entries,
                cancelled,
                now,
            ).2[k]).timer_id != id,
{
    lemma_due_len_bounds(entries, now);
    let k = due_len(entries, now) as int;
    lemma_distinct_parts(entries, k);
    lemma_fire_due_cancelled_silent(entries.take(k), entries.skip(k), cancelled, now, id);
}

/// A due timer that is not cancelled fires at the tick: its event comes out;
/// a one-shot timer is then gone from the queue, and a repeating one waits
/// again, one period after the tick.
pub proof fn law_due_timer_fires(entries: Seq<TimerEntry>, cancelled: Set<u64>, now: u64, j: int)
    requires
        ids_distinct(entries),
        0 <= j < entries.len(),
        entries[j].fire_at <= now,
        sorted_by_fire_time(entries),
        !cancelled.contains(entries[j].id),
    ensures
        tick_outcome(entries, cancelled, now).2.contains(event_of(entries[j])),
        entries[j].interval is None ==> forall|x: TimerEntry|
            #[trigger] tick_outcome(entries, cancelled, now).0.contains(x) ==> x.id != entries[j].id,
        forall|p: u64|
            entries[j].interval == Some(p) ==> #[trigger] tick_outcome(entries, cancelled, now).0.contains(
                rearmed(entries[j], now, p),
            ),
{
    lemma_due_len_bounds(entries, now);
    let k = due_len(entries, now) as int;
    if j >= k {
        lemma_rest_not_due_after_prefix(entries, now);
        assert(false);
    }
    let due = entries.take(k);
    let pending = entries.skip(k);
    assert(due[j] == entries[j]);
    lemma_distinct_parts(entries, k);
    lemma_fire_due_fires(due, pending, cancelled, now, j);
    lemma_fire_due_queue_origin(due, pending, cancelled, now);
    if entries[j].interval is None {
        assert forall|x: TimerEntry|
            #[trigger] tick_outcome(entries, cancelled, now).0.contains(x) implies x.id != entries[j].id by {
            if pending.contains(x) {
                let m = choose|m: int| 0 <= m < pending.len() && pending[m] == x;
                assert(due[j].id != pending[m].id);
            } else {
                let (i, p) = choose|i: int, p: u64|
                    0 <= i < due.len() && due[i].interval == Some(p) && x == rearmed(due[i], now, p);
                assert(i != j);
            }
        }
    }
}

/// A timer added to the queue fires at the first tick at or after its fire
/// time (unless cancelled), whatever else the queue holds.
pub proof fn law_added_timer_fires_when_due(
    entries: Seq<TimerEntry>,
    cancelled: Set<u64>,
    e: TimerEntry,
    now: u64,
)
    requires
        sorted_by_fire_time(entries),
        periods_positive(entries),
        ids_distinct(entries),
        e.interval != Some(0u64),
        forall|i: int| 0 <= i < entries.len() ==> (#[trigger] entries[i]).id != e.id,
        e.fire_at <= now,
        !cancelled.contains(e.id),
    ensures
        tick_outcome(insert_sorted(entries, e), cancelled, now).2.contains(event_of(e)),
{
    lemma_insert_sorted_wf(entries, e);
    lemma_insert_sorted_distinct(entries, e);
    lemma_insert_index_bounds(entries, e.fire_at);
    let k = insert_index(entries, e.fire_at) as int;
    let r = insert_sorted(entries, e);
    assert(r[k] == e);
    law_due_timer_fires(r, cancelled, now, k);
}

/// Adding a timer whose id is new keeps the ids distinct.
proof fn lemma_insert_sorted_distinct(s: Seq<TimerEntry>, e: TimerEntry)
    requires
        ids_distinct(s),
        forall|i: int| 0 <= i < s.len() ==> (#[trigger] s[i]).id != e.id,
    ensures
        ids_distinct(insert_sorted(s, e)),
{
    lemma_insert_index_len(s, e.fire_at);
    let k = insert_index(s, e.fire_at) as int;
    let r = insert_sorted(s, e);
    assert forall|i: int, j: int| 0 <= i < r.len() && 0 <= j < r.len() && i != j implies r[i].id
        != r[j].id by {
        if i != k && j != k {
            let si = if i < k { i } else { i - 1 };
            let sj = if j < k { j } else { j - 1 };
            assert(r[i] == s[si] && r[j] == s[sj]);
        } else if i == k {
            let sj = if j < k { j } else { j - 1 };
            assert(r[j] == s[sj]);
        } else {
            let si = if i < k { i } else { i - 1 };
            assert(r[i] == s[si]);
        }
    }
}

/// Two queues with distinct ids, sharing none, make one with distinct ids;
/// and conversely.
proof fn lemma_concat_distinct(a: Seq<TimerEntry>, b: Seq<TimerEntry>)
    ensures
        ids_distinct(a + b) <==> (ids_distinct(a) && ids_distinct(b) && forall|i: int, j: int|
            0 <= i < a.len() && 0 <= j < b.len() ==> #[trigger] a[i].id != #[trigger] b[j].id),
{
    let c = a + b;
    if ids_distinct(c) {
        assert forall|i: int, j: int| 0 <= i < a.len() && 0 <= j < a.len() && i != j implies a[i].id
            != a[j].id by {
            assert(c[i] == a[i] && c[j] == a[j]);
        }
        assert forall|i: int, j: int| 0 <= i < b.len() && 0 <= j < b.len() && i != j implies b[i].id
            != b[j].id by {
            assert(c[a.len() + i] == b[i] && c[a.len() + j] == b[j]);
        }
        assert forall|i: int, j: int| 0 <= i < a.len() && 0 <= j < b.len() implies #[trigger] a[i].id
            != #[trigger] b[j].id by {
            assert(c[i] == a[i] && c[a.len() + j] == b[j]);
        }
    }
    if ids_distinct(a) && ids_distinct(b) && forall|i: int, j: int|
        0 <= i < a.len() && 0 <= j < b.len() ==> #[trigger] a[i].id != #[trigger] b[j].id {
        assert forall|i: int, j: int| 0 <= i < c.len() && 0 <= j < c.len() && i != j implies c[i].id
            != c[j].id by {
            if i < a.len() && j < a.len() {
                assert(c[i] == a[i] && c[j] == a[j]);
            } else if i < a.len() {
                assert(c[i] == a[i] && c[j] == b[j - a.len()]);
            } else if j < a.len() {
                assert(c[j] == a[j] && c[i] == b[i - a.len()]);
            } else {
                assert(c[i] == b[i - a.len()] && c[j] == b[j - a.len()]);
            }
        }
    }
}

/// Firing the due timers keeps the ids of the queue distinct.
proof fn lemma_fire_due_distinct(
    due: Seq<TimerEntry>,
    pending: Seq<TimerEntry>,
    cancelled: Set<u64>,
    now: u64,
)
    requires
        ids_distinct(due + pending),
    ensures
        ids_distinct(fire_due(due, pending, cancelled, now).0),
    decreases due.len(),
{
    lemma_concat_distinct(due, pending);
    if due.len() == 0 {
        assert(due + pending == pending);
    } else {
        let e = due[0];
        let tail = due.drop_first();
        assert forall|i: int, j: int| 0 <= i < tail.len() && 0 <= j < tail.len() && i != j implies tail[i].id
            != tail[j].id by {
            assert(tail[i] == due[i + 1] && tail[j] == due[j + 1]);
        }
        assert forall|i: int, j: int| 0 <= i < tail.len() && 0 <= j < pending.len() implies #[trigger] tail[i].id
            != #[trigger] pending[j].id by {
            assert(tail[i] == due[i + 1]);
        }
        if cancelled.contains(e.id) {
            lemma_concat_distinct(tail, pending);
            lemma_fire_due_distinct(tail, pending, cancelled.remove(e.id), now);
        } else {
            match e.interval {
                Some(p) => {
                    let r = rearmed(e, now, p);
                    assert forall|i: int| 0 <= i < pending.len() implies (#[trigger] pending[i]).id
                        != r.id by {
                        assert(due[0].id != pending[i].id);
                    }
                    lemma_insert_sorted_distinct(pending, r);
                    lemma_insert_sorted_members(pending, r);
                    let p2 = insert_sorted(pending, r);
                    assert forall|i: int, j: int| 0 <= i < tail.len() && 0 <= j < p2.len() implies #[trigger] tail[i].id
                        != #[trigger] p2[j].id by {
                        assert(tail[i] == due[i + 1]);
                        assert(p2.contains(p2[j]));
                        assert(p2[j] == r || pending.contains(p2[j]));
                        if p2[j] != r {
                            let m = choose|m: int| 0 <= m < pending.len() && pending[m] == p2[j];
                            assert(tail[i].id != pending[m].id);
                        }
                    }
                    lemma_concat_distinct(tail, p2);
                    lemma_fire_due_distinct(tail, p2, cancelled, now);
                },
                None => {
                    lemma_concat_distinct(tail, pending);
                    lemma_fire_due_distinct(tail, pending, cancelled, now);
                },
            }
        }
    }
}

/// With no trace of `id` left to fire (its id cancelled, or no due timer
/// with it) and none waiting, nothing with `id` is left in the queue.
proof fn lemma_fire_due_drops(
    due: Seq<TimerEntry>,
    pending: Seq<TimerEntry>,
    cancelled: Set<u64>,
    now: u64,
    id: u64,
)
    requires
        ids_distinct(due),
        forall|x: TimerEntry| pending.contains(x) ==> x.id != id,
        cancelled.contains(id) || forall|j: int| 0 <= j < due.len() ==> (#[trigger] due[j]).id != id,
    ensures
        forall|x: TimerEntry| fire_due(due, pending, cancelled, now).0.contains(x) ==> x.id != id,
    decreases due.len(),
{
    if due.len() > 0 {
        let e = due[0];
        let tail = due.drop_first();
        assert forall|i: int, j: int| 0 <= i < tail.len() && 0 <= j < tail.len() && i != j implies tail[i].id
            != tail[j].id by {
            assert(tail[i] == due[i + 1] && tail[j] == due[j + 1]);
        }
        if cancelled.contains(e.id) {
            if e.id == id {
                assert forall|j: int| 0 <= j < tail.len() implies (#[trigger] tail[j]).id != id by {
                    assert(tail[j] == due[j + 1]);
                }
            } else if !cancelled.contains(id) {
                assert forall|j: int| 0 <= j < tail.len() implies (#[trigger] tail[j]).id != id by {
                    assert(tail[j] == due[j + 1]);
                }
            }
            lemma_fire_due_drops(tail, pending, cancelled.remove(e.id), now, id);
            assert(fire_due(due, pending, cancelled, now) == fire_due(
                tail,
                pending,
                cancelled.remove(e.id),
                now,
            ));
        } else {
            assert(e.id != id);
            let pending2 = match e.interval {
                Some(p) => insert_sorted(pending, rearmed(e, now, p)),
                None => pending,
            };
            if let Some(p) = e.interval {
                let r = rearmed(e, now, p);
                lemma_insert_sorted_members(pending, r);
                assert forall|x: TimerEntry| pending2.contains(x) implies x.id != id by {
                    assert(x == r || pending.contains(x));
                }
            }
            if !cancelled.contains(id) {
                assert forall|j: int| 0 <= j < tail.len() implies (#[trigger] tail[j]).id != id by {
                    assert(tail[j] == due[j + 1]);
                }
            }
            lemma_fire_due_drops(tail, pending2, cancelled, now, id);
            assert(fire_due(due, pending, cancelled, now).0 == fire_due(tail, pending2, cancelled, now).0);
        }
    }
}

/// A cancelled id stays cancelled while no due timer carries it.
proof fn lemma_fire_due_keeps_cancelled(
    due: Seq<TimerEntry>,
    pending: Seq<TimerEntry>,
    cancelled: Set<u64>,
    now: u64,
    id: u64,
)
    requires
        cancelled.contains(id),
        forall|j: int| 0 <= j < due.len() ==> (#[trigger] due[j]).id != id,
    ensures
        fire_due(due, pending, cancelled, now).1.contains(id),
    decreases due.len(),
{
    if due.len() > 0 {
        let e = due[0];
        let tail = due.drop_first();
        assert forall|j: int| 0 <= j < tail.len() implies (#[trigger] tail[j]).id != id by {
            assert(tail[j] == due[j + 1]);
        }
        let pending2 = match e.interval {
            Some(p) => insert_sorted(pending, rearmed(e, now, p)),
            None => pending,
        };
        if cancelled.contains(e.id) {
            lemma_fire_due_keeps_cancelled(tail, pending, cancelled.remove(e.id), now, id);
        } else {
            lemma_fire_due_keeps_cancelled(tail, pending2, cancelled, now, id);
        }
    }
}

/// A timer id is silenced when it is cancelled, or when no live timer
/// carries it.
pub open spec fn silenced(entries: Seq<TimerEntry>, cancelled: Set<u64>, id: u64) -> bool {
    cancelled.contains(id) || forall|i: int| 0 <= i < entries.len() ==> (#[trigger] entries[i]).id != id
}

/// Every event of a tick is the event of a timer that was due at the tick:
/// same id and same actor, and never early.
pub proof fn law_tick_events_come_from_due_timers(
    entries: Seq<TimerEntry>,
    cancelled: Set<u64>,
    now: u64,
)
    ensures
        forall|k: int|
            0 <= k < tick_outcome(entries, cancelled, now).2.len() ==> exists|j: int|
                0 <= j < entries.len() && entries[j].fire_at <= now && #[trigger] tick_outcome(
                    entries,
                    cancelled,
                    now,
                ).2[k] == event_of(entries[j]),
{
    lemma_due_len_bounds(entries, now);
    let n = due_len(entries, now) as int;
    let due = entries.take(n);
    lemma_fire_due_ids_from(due, entries.skip(n), cancelled, now);
    assert forall|k: int|
        0 <= k < tick_outcome(entries, cancelled, now).2.len() implies exists|j: int|
        0 <= j < entries.len() && entries[j].fire_at <= now && #[trigger] tick_outcome(
            entries,
            cancelled,
            now,
        ).2[k] == event_of(entries[j]) by {
        let j = choose|j: int|
            0 <= j < due.len() && fire_due(due, entries.skip(n), cancelled, now).2[k] == event_of(
                due[j],
            );
        assert(due[j] == entries[j]);
        lemma_due_prefix(entries, now, j);
    }
}

/// Once cancelled, a timer never fires again and is never re-armed: a tick
/// produces no event for a silenced id, leaves it silenced, and keeps the
/// ids of the live timers distinct; adding timers with other ids, and
/// cancelling, keep it silenced (`law_add_keeps_silenced`). By induction
/// over the ticks and commands that follow, the id stays silent for good.
pub proof fn law_cancelled_timer_stays_silent(
    entries: Seq<TimerEntry>,
    cancelled: Set<u64>,
    now: u64,
    id: u64,
)
    requires
        ids_distinct(entries),
        silenced(entries, cancelled, id),
    ensures
        forall|k: int|
            0 <= k < tick_outcome(entries, cancelled, now).2.len() ==> (#[trigger] tick_outcome(
                entries,
                cancelled,
                now,
            ).2[k]).timer_id != id,
        silenced(tick_outcome(entries, cancelled, now).0, tick_outcome(entries, cancelled, now).1, id),
        ids_distinct(tick_outcome(entries, cancelled, now).0),
{
    lemma_due_len_bounds(entries, now);
    let n = due_len(entries, now) as int;
    let due = entries.take(n);
    let pending = entries.skip(n);
    let out = tick_outcome(entries, cancelled, now);
    assert(due + pending == entries);
    lemma_concat_distinct(due, pending);
    lemma_fire_due_distinct(due, pending, cancelled, now);
    if cancelled.contains(id) {
        lemma_fire_due_cancelled_silent(due, pending, cancelled, now, id);
        if exists|j: int| 0 <= j < due.len() && due[j].id == id {
            let j = choose|j: int| 0 <= j < due.len() && due[j].id == id;
            assert forall|x: TimerEntry| pending.contains(x) implies x.id != id by {
                let m = choose|m: int| 0 <= m < pending.len() && pending[m] == x;
                assert(due[j].id != pending[m].id);
            }
            lemma_fire_due_drops(due, pending, cancelled, now, id);
            assert forall|i: int| 0 <= i < out.0.len() implies (#[trigger] out.0[i]).id != id by {
                assert(out.0.contains(out.0[i]));
            }
        } else {
            lemma_fire_due_keeps_cancelled(due, pending, cancelled, now, id);
        }
    } else {
        assert forall|j: int| 0 <= j < due.len() implies (#[trigger] due[j]).id != id by {
            assert(due[j] == entries[j]);
        }
        assert forall|x: TimerEntry| pending.contains(x) implies x.id != id by {
            let m = choose|m: int| 0 <= m < pending.len() && pending[m] == x;
            assert(pending[m] == entries[n + m]);
        }
        lemma_fire_due_drops(due, pending, cancelled, now, id);
        assert forall|i: int| 0 <= i < out.0.len() implies (#[trigger] out.0[i]).id != id by {
            assert(out.0.contains(out.0[i]));
        }
        lemma_fire_due_ids_from(due, pending, cancelled, now);
        assert forall|k: int| 0 <= k < out.2.len() implies (#[trigger] out.2[k]).timer_id != id by {
            let j = choose|j: int| 0 <= j < due.len() && fire_due(due, pending, cancelled, now).2[k] == event_of(due[j]);
        }
    }
}

/// Adding a timer with another id keeps `id` silenced, and adding one with
/// a new id keeps the live ids distinct.
pub proof fn law_add_keeps_silenced(
    entries: Seq<TimerEntry>,
    cancelled: Set<u64>,
    e: TimerEntry,
    id: u64,
)
    requires
        e.id != id,
        silenced(entries, cancelled, id),
    ensures
        silenced(insert_sorted(entries, e), cancelled, id),
        ids_distinct(entries) && (forall|i: int| 0 <= i < entries.len() ==> (#[trigger] entries[i]).id
            != e.id) ==> ids_distinct(insert_sorted(entries, e)),
{
    lemma_insert_sorted_members(entries, e);
    if !cancelled.contains(id) {
        let r = insert_sorted(entries, e);
        assert forall|i: int| 0 <= i < r.len() implies (#[trigger] r[i]).id != id by {
            assert(r.contains(r[i]));
            assert(r[i] == e || entries.contains(r[i]));
            if r[i] != e {
                let m = choose|m: int| 0 <= m < entries.len() && entries[m] == r[i];
            }
        }
    }
    if ids_distinct(entries) && (forall|i: int| 0 <= i < entries.len() ==> (#[trigger] entries[i]).id
        != e.id) {
        lemma_insert_sorted_distinct(entries, e);
    }
}

/// Cancelling an id silences it.
pub proof fn law_cancel_silences(entries: Seq<TimerEntry>, cancelled: Set<u64>, id: u64)
    ensures
        silenced(entries, cancelled.insert(id), id),
{
}

/// One step in the life of the timer service: a command it is given, or a
/// tick of its clock at an instant.
pub enum TimerStep {
    Add(TimerEntry),
    Cancel(u64),
    Tick(u64),
}

/// What one step makes of the queue `entries` and the cancelled ids, and
/// the events it produces (only a tick produces any).
pub open spec fn step_outcome(entries: Seq<TimerEntry>, cancelled: Set<u64>, step: TimerStep) -> (
    Seq<TimerEntry>,
    Set<u64>,
    Seq<TimerEvent>,
) {
    match step {
        TimerStep::Add(e) => (insert_sorted(entries, e), cancelled, Seq::empty()),
        TimerStep::Cancel(id) => (entries, cancelled.insert(id), Seq::empty()),
        TimerStep::Tick(now) => tick_outcome(entries, cancelled, now),
    }
}

/// What the steps `steps`, taken in order from the queue `entries` and the
/// cancelled ids `cancelled`, leave behind, with every event they produce
/// in the order it was produced.
pub open spec fn run_outcome(entries: Seq<TimerEntry>, cancelled: Set<u64>, steps: Seq<TimerStep>) -> (
    Seq<TimerEntry>,
    Set<u64>,
    Seq<TimerEvent>,
)
    decreases steps.len(),
{
    if steps.len() == 0 {
        (entries, cancelled, Seq::empty())
    } else {
        let s = step_outcome(entries, cancelled, steps[0]);
        let r = run_outcome(s.0, s.1, steps.drop_first());
        (r.0, r.1, s.2 + r.2)
    }
}

/// The id a step adds a timer under, if it adds one.
pub open spec fn added_id(step: TimerStep) -> Option<u64> {
    match step {
        TimerStep::Add(e) => Some(e.id),
        _ => None,
    }
}

/// Every timer the steps add has a fresh id, as the service's id counter
/// hands out: not `id`, not the id of a timer waiting in `entries`, and not
/// the id of another timer the steps add.
pub open spec fn adds_fresh_ids(entries: Seq<TimerEntry>, steps: Seq<TimerStep>, id: u64) -> bool {
    &&& forall|i: int| 0 <= i < steps.len() && #[trigger] added_id(steps[i]) is Some ==> {
        &&& added_id(steps[i]) != Some(id)
        &&& forall|k: int| 0 <= k < entries.len() ==> Some(#[trigger] entries[k].id) != added_id(steps[i])
    }
    &&& forall|i: int, j: int|
        0 <= i < j < steps.len() && (#[trigger] added_id(steps[i])) is Some ==> added_id(steps[i])
            != #[trigger] added_id(steps[j])
}

/// The timers waiting after a tick carry ids of timers waiting before it.
proof fn lemma_tick_keeps_ids(entries: Seq<TimerEntry>, cancelled: Set<u64>, now: u64)
    ensures
        forall|i: int|
            0 <= i < tick_outcome(entries, cancelled, now).0.len() ==> exists|j: int|
                0 <= j < entries.len() && entries[j].id == (#[trigger] tick_outcome(
                    entries,
                    cancelled,
                    now,
                ).0[i]).id,
{
    lemma_due_len_bounds(entries, now);
    let n = due_len(entries, now) as int;
    let due = entries.take(n);
    let pending = entries.skip(n);
    let out = tick_outcome(entries, cancelled, now);
    lemma_fire_due_queue_origin(due, pending, cancelled, now);
    assert forall|i: int| 0 <= i < out.0.len() implies exists|j: int|
        0 <= j < entries.len() && entries[j].id == (#[trigger] out.0[i]).id by {
        let x = out.0[i];
        assert(fire_due(due, pending, cancelled, now).0.contains(x));
        if pending.contains(x) {
            let m = choose|m: int| 0 <= m < pending.len() && pending[m] == x;
            assert(entries[n + m] == x);
        } else {
            let (j, p) = choose|j: int, p: u64|
                0 <= j < due.len() && due[j].interval == Some(p) && x == rearmed(due[j], now, p);
            assert(entries[j] == due[j]);
        }
    }
}

/// Once cancelled, a timer stays silent for the whole life of the service:
/// over any run of commands and ticks that adds timers only under fresh
/// ids, no event carries the cancelled id, and at the end it is still
/// silenced (cancelled, or no longer waiting, so never armed again).
pub proof fn law_cancelled_timer_silent_for_the_run(
    entries: Seq<TimerEntry>,
    cancelled: Set<u64>,
    steps: Seq<TimerStep>,
    id: u64,
)
    requires
        ids_distinct(entries),
        silenced(entries, cancelled, id),
        adds_fresh_ids(entries, steps, id),
    ensures
        forall|k: int|
            0 <= k < run_outcome(entries, cancelled, steps).2.len() ==> (#[trigger] run_outcome(
                entries,
                cancelled,
                steps,
            ).2[k]).timer_id != id,
        silenced(run_outcome(entries, cancelled, steps).0, run_outcome(entries, cancelled, steps).1, id),
        ids_distinct(run_outcome(entries, cancelled, steps).0),
    decreases steps.len(),
{
    if steps.len() > 0 {
        let step = steps[0];
        let tail = steps.drop_first();
        let s = step_outcome(entries, cancelled, step);
        assert forall|i: int| 0 <= i < tail.len() implies added_id(#[trigger] tail[i]) == added_id(steps[i + 1]) by {}
        match step {
            TimerStep::Add(e) => {
                assert(added_id(steps[0]) == Some(e.id));
                law_add_keeps_silenced(entries, cancelled, e, id);
                lemma_insert_sorted_members(entries, e);
                assert forall|k: int| 0 <= k < entries.len() implies (#[trigger] entries[k]).id != e.id by {
                    assert(Some(entries[k].id) != added_id(steps[0]));
                }
                assert forall|i: int| 0 <= i < tail.len() && #[trigger] added_id(tail[i]) is Some implies {
                    &&& added_id(tail[i]) != Some(id)
                    &&& forall|k: int| 0 <= k < s.0.len() ==> Some(#[trigger] s.0[k].id) != added_id(tail[i])
                } by {
                    assert(added_id(tail[i]) == added_id(steps[i + 1]));
                    assert(added_id(steps[i + 1]) is Some);
                    assert forall|k: int| 0 <= k < s.0.len() implies Some(#[trigger] s.0[k].id) != added_id(tail[i]) by {
                        assert(s.0 == insert_sorted(entries, e));
                        assert(s.0.contains(s.0[k]));
                        assert(s.0[k] == e || entries.contains(s.0[k]));
                        if s.0[k] != e {
                            let m = choose|m: int| 0 <= m < entries.len() && entries[m] == s.0[k];
                            assert(Some(entries[m].id) != added_id(steps[i + 1]));
                        } else {
                            assert(added_id(steps[0]) != added_id(steps[i + 1]));
                        }
                    }
                }
                assert forall|i: int, j: int|
                    0 <= i < j < tail.len() && (#[trigger] added_id(tail[i])) is Some implies added_id(tail[i])
                        != #[trigger] added_id(tail[j]) by {
                    assert(added_id(tail[j]) == added_id(steps[j + 1]));
                    assert(added_id(steps[i + 1]) is Some);
                }
            },
            TimerStep::Cancel(c) => {
                assert forall|i: int| 0 <= i < tail.len() && #[trigger] added_id(tail[i]) is Some implies {
                    &&& added_id(tail[i]) != Some(id)
                    &&& forall|k: int| 0 <= k < s.0.len() ==> Some(#[trigger] s.0[k].id) != added_id(tail[i])
                } by {
                    assert(added_id(steps[i + 1]) is Some);
                }
                assert forall|i: int, j: int|
                    0 <= i < j < tail.len() && (#[trigger] added_id(tail[i])) is Some implies added_id(tail[i])
                        != #[trigger] added_id(tail[j]) by {
                    assert(added_id(tail[j]) == added_id(steps[j + 1]));
                    assert(added_id(steps[i + 1]) is Some);
                }
            },
            TimerStep::Tick(now) => {
                law_cancelled_timer_stays_silent(entries, cancelled, now, id);
                lemma_tick_keeps_ids(entries, cancelled, now);
                assert forall|i: int| 0 <= i < tail.len() && #[trigger] added_id(tail[i]) is Some implies {
                    &&& added_id(tail[i]) != Some(id)
                    &&& forall|k: int| 0 <= k < s.0.len() ==> Some(#[trigger] s.0[k].id) != added_id(tail[i])
                } by {
                    assert(added_id(steps[i + 1]) is Some);
                    assert forall|k: int| 0 <= k < s.0.len() implies Some(#[trigger] s.0[k].id) != added_id(tail[i]) by {
                        let j = choose|j: int| 0 <= j < entries.len() && entries[j].id == s.0[k].id;
                        assert(Some(entries[j].id) != added_id(steps[i + 1]));
                    }
                }
                assert forall|i: int, j: int|
                    0 <= i < j < tail.len() && (#[trigger] added_id(tail[i])) is Some implies added_id(tail[i])
                        != #[trigger] added_id(tail[j]) by {
                    assert(added_id(tail[j]) == added_id(steps[j + 1]));
                    assert(added_id(steps[i + 1]) is Some);
                }
            },
        }
        law_cancelled_timer_silent_for_the_run(s.0, s.1, tail, id);
        let r = run_outcome(s.0, s.1, tail);
        let all = run_outcome(entries, cancelled, steps);
        assert(all.2 == s.2 + r.2);
        assert forall|k: int| 0 <= k < all.2.len() implies (#[trigger] all.2[k]).timer_id != id by {
            if k >= s.2.len() {
                assert(all.2[k] == r.2[k - s.2.len()]);
            } else {
                assert(all.2[k] == s.2[k]);
            }
        }
    }
}

/// A run followed by one more step: the state the step leaves, and the
/// run's events followed by the step's.
proof fn lemma_run_push(entries: Seq<TimerEntry>, cancelled: Set<u64>, steps: Seq<TimerStep>, step: TimerStep)
    ensures
        ({
            let r = run_outcome(entries, cancelled, steps);
            let s = step_outcome(r.0, r.1, step);
            run_outcome(entries, cancelled, steps.push(step)) == (s.0, s.1, r.2 + s.2)
        }),
    decreases steps.len(),
{
    let whole = steps.push(step);
    let r = run_outcome(entries, cancelled, steps);
    let s = step_outcome(r.0, r.1, step);
    if steps.len() == 0 {
        assert(whole[0] == step);
        assert(whole.drop_first() =~= Seq::<TimerStep>::empty());
        let s0 = step_outcome(entries, cancelled, whole[0]);
        assert(run_outcome(s0.0, s0.1, whole.drop_first()) == (s0.0, s0.1, Seq::<TimerEvent>::empty()));
        assert(s0.2 + Seq::<TimerEvent>::empty() =~= s0.2);
        assert(Seq::<TimerEvent>::empty() + s.2 =~= s.2);
        assert(run_outcome(entries, cancelled, whole) == (s0.0, s0.1, s0.2 + Seq::<TimerEvent>::empty()));
    } else {
        let first = step_outcome(entries, cancelled, steps[0]);
        assert(whole[0] == steps[0]);
        assert(whole.drop_first() =~= steps.drop_first().push(step));
        lemma_run_push(first.0, first.1, steps.drop_first(), step);
        let rt = run_outcome(first.0, first.1, steps.drop_first());
        assert(r == (rt.0, rt.1, first.2 + rt.2));
        assert(first.2 + (rt.2 + s.2) =~= (first.2 + rt.2) + s.2);
        assert(run_outcome(entries, cancelled, whole) == (s.0, s.1, first.2 + (rt.2 + s.2)));
    }
}

/// The state after the first `i` of the steps.
pub open spec fn state_before(
    entries: Seq<TimerEntry>,
    cancelled: Set<u64>,
    steps: Seq<TimerStep>,
    i: int,
) -> (Seq<TimerEntry>, Set<u64>, Seq<TimerEvent>) {
    run_outcome(entries, cancelled, steps.take(i))
}

/// Step `a` is a tick at `t` at which the repeating timer `y`, waiting and
/// due then, fired (its event was produced) and was armed again as `x`,
/// one period after `t`.
pub open spec fn fired_and_rearmed(
    entries: Seq<TimerEntry>,
    cancelled: Set<u64>,
    steps: Seq<TimerStep>,
    a: int,
    t: u64,
    y: TimerEntry,
    x: TimerEntry,
) -> bool {
    let before = state_before(entries, cancelled, steps, a);
    &&& steps[a] == TimerStep::Tick(t)
    &&& before.0.contains(y)
    &&& y.fire_at <= t
    &&& step_outcome(before.0, before.1, steps[a]).2.contains(event_of(y))
    &&& y.interval is Some
    &&& x == rearmed(y, t, y.interval->0)
}

/// How a timer waiting after the first `i` steps came to wait: it was
/// waiting at the start, one of those steps added it, or it is a repeating
/// timer armed again after firing at one of those ticks.
pub open spec fn waiting_origin(
    entries: Seq<TimerEntry>,
    cancelled: Set<u64>,
    steps: Seq<TimerStep>,
    i: int,
    x: TimerEntry,
) -> bool {
    ||| entries.contains(x)
    ||| exists|a: int| 0 <= a < i && steps[a] == TimerStep::Add(x)
    ||| exists|a: int, t: u64, y: TimerEntry|
        0 <= a < i && #[trigger] fired_and_rearmed(entries, cancelled, steps, a, t, y, x)
}

/// What a tick leaves waiting was waiting before it, or is a repeating timer
/// that was due, fired at the tick, and was armed again one period later.
proof fn lemma_tick_origin(entries: Seq<TimerEntry>, cancelled: Set<u64>, now: u64)
    ensures
        forall|x: TimerEntry|
            #![trigger tick_outcome(entries, cancelled, now).0.contains(x)]
            tick_outcome(entries, cancelled, now).0.contains(x) ==> entries.contains(x) || exists|
                y: TimerEntry,
            |
                entries.contains(y) && y.fire_at <= now && y.interval is Some && x == rearmed(
                    y,
                    now,
                    y.interval->0,
                ) && tick_outcome(entries, cancelled, now).2.contains(event_of(y)),
{
    lemma_due_len_bounds(entries, now);
    let n = due_len(entries, now) as int;
    let due = entries.take(n);
    let pending = entries.skip(n);
    let out = tick_outcome(entries, cancelled, now);
    lemma_fire_due_queue_origin(due, pending, cancelled, now);
    assert forall|x: TimerEntry|
        #![trigger tick_outcome(entries, cancelled, now).0.contains(x)]
        tick_outcome(entries, cancelled, now).0.contains(x) implies entries.contains(x) || exists|
            y: TimerEntry,
        |
            entries.contains(y) && y.fire_at <= now && y.interval is Some && x == rearmed(
                y,
                now,
                y.interval->0,
            ) && tick_outcome(entries, cancelled, now).2.contains(event_of(y)) by {
        assert(fire_due(due, pending, cancelled, now).0.contains(x));
        if pending.contains(x) {
            let m = choose|m: int| 0 <= m < pending.len() && pending[m] == x;
            assert(entries[n + m] == x);
        } else {
            let (j, p) = choose|j: int, p: u64|
                0 <= j < due.len() && due[j].interval == Some(p) && x == rearmed(due[j], now, p)
                    && fire_due(due, pending, cancelled, now).2.contains(event_of(due[j]));
            assert(entries[j] == due[j]);
            lemma_due_prefix(entries, now, j);
            assert(entries.contains(due[j]));
        }
    }
}

/// Every timer waiting after the first `i` steps has a known origin.
proof fn lemma_waiting_origin(entries: Seq<TimerEntry>, cancelled: Set<u64>, steps: Seq<TimerStep>, i: int)
    requires
        0 <= i <= steps.len(),
    ensures
        forall|x: TimerEntry|
            #[trigger] state_before(entries, cancelled, steps, i).0.contains(x) ==> waiting_origin(
                entries,
                cancelled,
                steps,
                i,
                x,
            ),
    decreases i,
{
    if i == 0 {
        assert(steps.take(0) == Seq::<TimerStep>::empty());
    } else {
        let a = i - 1;
        lemma_waiting_origin(entries, cancelled, steps, a);
        assert(steps.take(i) == steps.take(a).push(steps[a]));
        lemma_run_push(entries, cancelled, steps.take(a), steps[a]);
        let before = state_before(entries, cancelled, steps, a);
        let after = state_before(entries, cancelled, steps, i);
        assert(after.0 == step_outcome(before.0, before.1, steps[a]).0);
        assert forall|x: TimerEntry|
            #[trigger] state_before(entries, cancelled, steps, i).0.contains(x) implies waiting_origin(
            entries,
            cancelled,
            steps,
            i,
            x,
        ) by {
            match steps[a] {
                TimerStep::Add(e) => {
                    lemma_insert_sorted_members(before.0, e);
                    if x == e {
                        assert(steps[a] == TimerStep::Add(x));
                    } else {
                        assert(before.0.contains(x));
                        assert(waiting_origin(entries, cancelled, steps, a, x));
                    }
                },
                TimerStep::Cancel(c) => {
                    assert(before.0.contains(x));
                    assert(waiting_origin(entries, cancelled, steps, a, x));
                },
                TimerStep::Tick(t) => {
                    lemma_tick_origin(before.0, before.1, t);
                    assert(tick_outcome(before.0, before.1, t).0.contains(x));
                    if before.0.contains(x) {
                        assert(waiting_origin(entries, cancelled, steps, a, x));
                    } else {
                        let y = choose|y: TimerEntry|
                            before.0.contains(y) && y.fire_at <= t && y.interval is Some && x
                                == rearmed(y, t, y.interval->0) && tick_outcome(
                                before.0,
                                before.1,
                                t,
                            ).2.contains(event_of(y));
                        assert(fired_and_rearmed(entries, cancelled, steps, a, t, y, x));
                    }
                },
            }
        }
    }
}

/// Timers never fire early, over the whole life of the service. Every event
/// of the tick at `now` that is step `i` of a run is the event of a timer
/// waiting just before that tick whose instant has come (`fire_at <= now`).
/// That timer was waiting at the start, or was added by an earlier step
/// with that instant, or is a repeating timer that fired at an earlier tick
/// `t` and was armed again for `t` plus its period: a first firing comes no
/// earlier than the instant the timer was added with, and each repeat no
/// earlier than one period after the firing before it.
pub proof fn law_timers_never_fire_early(
    entries: Seq<TimerEntry>,
    cancelled: Set<u64>,
    steps: Seq<TimerStep>,
    i: int,
    now: u64,
    k: int,
)
    requires
        0 <= i < steps.len(),
        steps[i] == TimerStep::Tick(now),
        0 <= k < tick_outcome(
            state_before(entries, cancelled, steps, i).0,
            state_before(entries, cancelled, steps, i).1,
            now,
        ).2.len(),
    ensures
        exists|x: TimerEntry|
            #![trigger waiting_origin(entries, cancelled, steps, i, x)]
            state_before(entries, cancelled, steps, i).0.contains(x) && x.fire_at <= now
                && tick_outcome(
                state_before(entries, cancelled, steps, i).0,
                state_before(entries, cancelled, steps, i).1,
                now,
            ).2[k] == event_of(x) && waiting_origin(entries, cancelled, steps, i, x),
{
    let before = state_before(entries, cancelled, steps, i);
    law_tick_events_come_from_due_timers(before.0, before.1, now);
    let out = tick_outcome(before.0, before.1, now);
    let j = choose|j: int|
        0 <= j < before.0.len() && before.0[j].fire_at <= now && #[trigger] out.2[k] == event_of(
            before.0[j],
        );
    let x = before.0[j];
    assert(before.0.contains(x));
    lemma_waiting_origin(entries, cancelled, steps, i);
    assert(waiting_origin(entries, cancelled, steps, i, x));
}

/// A timer that is not yet due keeps waiting through the tick.
pub proof fn law_waiting_timer_kept(entries: Seq<TimerEntry>, cancelled: Set<u64>, now: u64, j: int)
    requires
        0 <= j < entries.len(),
        entries[j].fire_at > now,
    ensures
        tick_outcome(entries, cancelled, now).0.contains(entries[j]),
{
    lemma_due_len_bounds(entries, now);
    let k = due_len(entries, now) as int;
    if j < k {
        lemma_due_prefix(entries, now, j);
    }
    assert(entries.skip(k)[j - k] == entries[j]);
    assert(entries.skip(k).contains(entries[j]));
    lemma_fire_due_keeps_pending(entries.take(k), entries.skip(k), cancelled, now);
    assert(tick_outcome(entries, cancelled, now) == fire_due(
        entries.take(k),
        entries.skip(k),
        cancelled,
        now,
    ));
}

/// In an ordered queue, an entry that is due lies within the due prefix.
proof fn lemma_rest_not_due_after_prefix(s: Seq<TimerEntry>, now: u64)
    requires
        sorted_by_fire_time(s),
    ensures
        forall|j: int| due_len(s, now) <= j < s.len() ==> s[j].fire_at > now,
{
    lemma_due_len_bounds(s, now);
    let k = due_len(s, now) as int;
    if k < s.len() {
        lemma_due_len_stops(s, now);
    }
    lemma_rest_not_due(s, now, k);
}

/// The due prefix ends at an entry that is not due.
proof fn lemma_due_len_stops(s: Seq<TimerEntry>, now: u64)
    requires
        due_len(s, now) < s.len(),
    ensures
        s[due_len(s, now) as int].fire_at > now,
    decreases s.len(),
{
    if s[0].fire_at <= now {
        lemma_due_len_stops(s.drop_first(), now);
        assert(s.drop_first()[due_len(s.drop_first(), now) as int] == s[due_len(s, now) as int]);
    }
}

/// Puts `e` into the ordered queue `v` in its place.
fn insert_entry(v: &mut Vec<TimerEntry>, e: TimerEntry)
    ensures
        final(v)@ == insert_sorted(old(v)@, e),
{
    let ghost s = old(v)@;
    let mut i: usize = v.len();
    assert(s.take(s.len() as int) == s);
    while i > 0 && v[i - 1].fire_at > e.fire_at
        invariant
            v@ == s,
            0 <= i <= s.len(),
            insert_index(s, e.fire_at) == insert_index(s.take(i as int), e.fire_at),
        decreases i,
    {
        assert(s.take(i as int).drop_last() == s.take(i - 1));
        i = i - 1;
    }
    v.insert(i, e);
}

proof fn lemma_due_len_bounds(s: Seq<TimerEntry>, now: u64)
    ensures
        due_len(s, now) <= s.len(),
    decreases s.len(),
{
    if s.len() > 0 && s[0].fire_at <= now {
        lemma_due_len_bounds(s.drop_first(), now);
    }
}

/// Below `due_len`, every entry is due.
proof fn lemma_due_prefix(s: Seq<TimerEntry>, now: u64, j: int)
    requires
        0 <= j < due_len(s, now),
    ensures
        s[j].fire_at <= now,
    decreases s.len(),
{
    lemma_due_len_bounds(s, now);
    if j > 0 {
        lemma_due_prefix(s.drop_first(), now, j - 1);
        assert(s.drop_first()[j - 1] == s[j]);
    }
}

/// A run of `k` due entries at the front makes `due_len` at least `k`.
proof fn lemma_due_len_at_least(s: Seq<TimerEntry>, now: u64, k: int)
    requires
        0 <= k <= s.len(),
        forall|j: int| 0 <= j < k ==> s[j].fire_at <= now,
    ensures
        due_len(s, now) >= k,
    decreases s.len(),
{
    if k > 0 {
        assert forall|j: int| 0 <= j < k - 1 implies s.drop_first()[j].fire_at <= now by {
            assert(s.drop_first()[j] == s[j + 1]);
        }
        lemma_due_len_at_least(s.drop_first(), now, k - 1);
    }
}

/// A run of due entries at the front ended by a later one (or by the end)
/// is exactly `due_len` long.
proof fn lemma_due_prefix_exact(s: Seq<TimerEntry>, now: u64, k: int)
    requires
        0 <= k <= s.len(),
        forall|j: int| 0 <= j < k ==> s[j].fire_at <= now,
        k == s.len() || s[k].fire_at > now,
    ensures
        due_len(s, now) == k,
    decreases s.len(),
{
    if k > 0 {
        lemma_due_prefix_exact(s.drop_first(), now, k - 1);
    }
}

/// In an ordered queue, nothing after the due prefix is due.
proof fn lemma_rest_not_due(s: Seq<TimerEntry>, now: u64, k: int)
    requires
        sorted_by_fire_time(s),
        0 <= k <= s.len(),
        k == s.len() || s[k].fire_at > now,
    ensures
        forall|j: int| k <= j < s.len() ==> s[j].fire_at > now,
{
}

proof fn lemma_insert_index_bounds(s: Seq<TimerEntry>, t: u64)
    requires
        sorted_by_fire_time(s),
    ensures
        insert_index(s, t) <= s.len(),
        forall|j: int| 0 <= j < insert_index(s, t) ==> s[j].fire_at <= t,
        forall|j: int| insert_index(s, t) <= j < s.len() ==> t < s[j].fire_at,
    decreases s.len(),
{
    if s.len() > 0 {
        let init = s.drop_last();
        assert(sorted_by_fire_time(init));
        lemma_insert_index_bounds(init, t);
        if t < s.last().fire_at {
            assert forall|j: int| 0 <= j < insert_index(s, t) implies s[j].fire_at <= t by {
                assert(init[j] == s[j]);
            }
            assert forall|j: int| insert_index(s, t) <= j < s.len() implies t < s[j].fire_at by {
                if j < s.len() - 1 {
                    assert(init[j] == s[j]);
                }
            }
        } else {
            assert forall|j: int| 0 <= j < insert_index(s, t) implies s[j].fire_at <= t by {
                assert(s[j].fire_at <= s[s.len() - 1].fire_at);
            }
        }
    }
}

/// Adding an entry keeps what was there and holds the new entry; anything
/// it holds was there or is the new entry.
proof fn lemma_insert_sorted_members(s: Seq<TimerEntry>, e: TimerEntry)
    ensures
        insert_sorted(s, e).contains(e),
        forall|x: TimerEntry| s.contains(x) ==> insert_sorted(s, e).contains(x),
        forall|x: TimerEntry| insert_sorted(s, e).contains(x) ==> x == e || s.contains(x),
{
    lemma_insert_index_len(s, e.fire_at);
    let k = insert_index(s, e.fire_at) as int;
    let r = insert_sorted(s, e);
    assert(r[k] == e);
    assert forall|x: TimerEntry| s.contains(x) implies r.contains(x) by {
        let m = choose|m: int| 0 <= m < s.len() && s[m] == x;
        if m < k {
            assert(r[m] == x);
        } else {
            assert(r[m + 1] == x);
        }
    }
    assert forall|x: TimerEntry| r.contains(x) implies x == e || s.contains(x) by {
        let m = choose|m: int| 0 <= m < r.len() && r[m] == x;
        if m < k {
            assert(s[m] == x);
        } else if m > k {
            assert(s[m - 1] == x);
        }
    }
}

proof fn lemma_insert_index_len(s: Seq<TimerEntry>, t: u64)
    ensures
        insert_index(s, t) <= s.len(),
    decreases s.len(),
{
    if s.len() > 0 {
        lemma_insert_index_len(s.drop_last(), t);
    }
}

/// Adding an entry keeps the queue ordered and keeps periods positive.
proof fn lemma_insert_sorted_wf(s: Seq<TimerEntry>, e: TimerEntry)
    requires
        sorted_by_fire_time(s),
        periods_positive(s),
        e.interval != Some(0u64),
    ensures
        sorted_by_fire_time(insert_sorted(s, e)),
        periods_positive(insert_sorted(s, e)),
        insert_sorted(s, e).len() == s.len() + 1,
        forall|j: int|
            0 <= j < insert_sorted(s, e).len() ==> #[trigger] insert_sorted(s, e)[j] == e
                || s.contains(insert_sorted(s, e)[j]),
{
    lemma_insert_sorted_members(s, e);
    lemma_insert_index_bounds(s, e.fire_at);
    let k = insert_index(s, e.fire_at) as int;
    let r = insert_sorted(s, e);
    assert forall|j: int| 0 <= j < r.len() implies #[trigger] r[j] == e || s.contains(r[j]) by {
        if j < k {
            assert(r[j] == s[j]);
        } else if j > k {
            assert(r[j] == s[j - 1]);
        }
    }
    assert forall|a: int, b: int| 0 <= a <= b < r.len() implies r[a].fire_at <= r[b].fire_at by {
        if a < k && b < k {
            assert(r[a] == s[a] && r[b] == s[b]);
        } else if a < k && b == k {
            assert(r[a] == s[a]);
        } else if a < k {
            assert(r[a] == s[a] && r[b] == s[b - 1]);
        } else if a == k && b > k {
            assert(r[b] == s[b - 1]);
        } else if a > k {
            assert(r[a] == s[a - 1] && r[b] == s[b - 1]);
        }
    }
    assert forall|j: int| 0 <= j < r.len() implies (#[trigger] r[j]).interval != Some(0u64) by {
        if j < k {
            assert(r[j] == s[j]);
        } else if j > k {
            assert(r[j] == s[j - 1]);
        }
    }
}

/// Adding an entry keeps the queue ordered, keeps periods positive, and
/// keeps every entry later than `now` if the new one is.
proof fn lemma_insert_sorted_keeps(s: Seq<TimerEntry>, e: TimerEntry, now: u64)
    requires
        sorted_by_fire_time(s),
        periods_positive(s),
        e.interval != Some(0u64),
        forall|j: int| 0 <= j < s.len() ==> (#[trigger] s[j]).fire_at > now,
        e.fire_at > now,
    ensures
        sorted_by_fire_time(insert_sorted(s, e)),
        periods_positive(insert_sorted(s, e)),
        forall|j: int|
            0 <= j < insert_sorted(s, e).len() ==> (#[trigger] insert_sorted(s, e)[j]).fire_at > now,
{
    lemma_insert_sorted_wf(s, e);
    let r = insert_sorted(s, e);
    assert forall|j: int| 0 <= j < r.len() implies (#[trigger] r[j]).fire_at > now by {
        if r[j] != e {
            let m = choose|m: int| 0 <= m < s.len() && s[m] == r[j];
            assert(s[m].fire_at > now);
        }
    }
}

} // verus!
