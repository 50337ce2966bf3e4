//! The event engine: a queue of events ordered by virtual time.
//!
//! Events leave in ascending order of time; events scheduled for the same
//! time leave in the order in which they were scheduled. The clock stands at
//! the time of the event that left last.

use vstd::prelude::*;
use crate::fixed::Fixed;

verus! {

/// An event and the virtual time at which it is due.
#[derive(Debug)]
pub struct Scheduled<E> {
    pub time: Fixed,
    pub event: E,
}

/// What an engine holds: the clock and the events not yet due, earliest first.
pub struct EngineState<E> {
    pub now: Fixed,
    pub queue: Seq<Scheduled<E>>,
}

/// `i` is where an event due at `t` joins `q`: behind every event due at `t`
/// or earlier, in front of every later one.
pub open spec fn is_slot<E>(q: Seq<Scheduled<E>>, t: Fixed, i: int) -> bool {
    &&& 0 <= i <= q.len()
    &&& forall|j: int| 0 <= j < i ==> (#[trigger] q[j]).time.raw <= t.raw
    &&& forall|j: int| i <= j < q.len() ==> (#[trigger] q[j]).time.raw > t.raw
}

/// The place at which an event due at `t` joins `q`.
pub open spec fn slot<E>(q: Seq<Scheduled<E>>, t: Fixed) -> int {
    choose|i: int| is_slot(q, t, i)
}

/// A queue admits one joining place for a given time.
pub proof fn lemma_slot_unique<E>(q: Seq<Scheduled<E>>, t: Fixed, i: int, k: int)
    requires
        is_slot(q, t, i),
        is_slot(q, t, k),
    ensures
        i == k,
{
    if i < k {
        assert(q[i].time.raw <= t.raw);
    } else if k < i {
        assert(q[k].time.raw <= t.raw);
    }
}

/// The entries stand in ascending order of time.
pub open spec fn ascending<E>(q: Seq<Scheduled<E>>) -> bool {
    forall|i: int, j: int|
        0 <= i <= j < q.len() ==> (#[trigger] q[i]).time.raw <= (#[trigger] q[j]).time.raw
}

/// `q` with `item` at its joining place.
pub open spec fn joined<E>(q: Seq<Scheduled<E>>, item: Scheduled<E>) -> Seq<Scheduled<E>> {
    q.insert(slot(q, item.time), item)
}

/// In a queue in ascending order of time every time has a joining place.
pub proof fn lemma_slot_exists<E>(q: Seq<Scheduled<E>>, t: Fixed, from: int)
    requires
        0 <= from <= q.len(),
        forall|j: int| 0 <= j < from ==> (#[trigger] q[j]).time.raw <= t.raw,
        ascending(q),
    ensures
        is_slot(q, t, slot(q, t)),
    decreases q.len() - from,
{
    if from == q.len() {
        assert(is_slot(q, t, from));
    } else if q[from].time.raw > t.raw {
        assert forall|j: int| from <= j < q.len() implies (#[trigger] q[j]).time.raw > t.raw by {
            assert(q[from].time.raw <= q[j].time.raw);
        }
        assert(is_slot(q, t, from));
    } else {
        lemma_slot_exists(q, t, from + 1);
    }
}

/// An entry that joins a queue in ascending order leaves it in ascending
/// order, and no entry earlier than `floor` where there was none before.
pub proof fn lemma_joined<E>(q: Seq<Scheduled<E>>, item: Scheduled<E>, floor: Fixed)
    requires
        ascending(q),
        floor.raw <= item.time.raw,
        forall|i: int| 0 <= i < q.len() ==> floor.raw <= (#[trigger] q[i]).time.raw,
    ensures
        ascending(joined(q, item)),
        joined(q, item).len() == q.len() + 1,
        0 <= slot(q, item.time) <= q.len(),
        is_slot(q, item.time, slot(q, item.time)),
        forall|i: int|
            0 <= i < joined(q, item).len() ==> floor.raw <= (#[trigger] joined(
                q,
                item,
            )[i]).time.raw,
{
    let t = item.time;
    let i = slot(q, t);
    lemma_slot_exists(q, t, 0);
    let r = joined(q, item);
    assert forall|a: int, b: int| 0 <= a <= b < r.len() implies (#[trigger] r[a]).time.raw <= (
    #[trigger] r[b]).time.raw by {
        if a < i {
            assert(r[a] == q[a]);
            if b < i {
                assert(r[b] == q[b]);
            } else if b == i {
            } else {
                assert(r[b] == q[b - 1]);
            }
        } else if a == i {
            if b > i {
                assert(r[b] == q[b - 1]);
            }
        } else {
            assert(r[a] == q[a - 1]);
            assert(r[b] == q[b - 1]);
        }
    }
    assert forall|a: int| 0 <= a < r.len() implies floor.raw <= (#[trigger] r[a]).time.raw by {
        if a < i {
            assert(r[a] == q[a]);
        } else if a > i {
            assert(r[a] == q[a - 1]);
        }
    }
}

/// What stands in a queue that an entry has joined is that entry or stood
/// in the queue before.
pub proof fn lemma_joined_from<E>(q: Seq<Scheduled<E>>, item: Scheduled<E>, i: int)
    requires
        ascending(q),
        0 <= i < joined(q, item).len(),
    ensures
        joined(q, item)[i] == item || exists|j: int| 0 <= j < q.len() && #[trigger] q[j] == joined(
            q,
            item,
        )[i],
{
    lemma_joined(q, item, Fixed { raw: 0 });
    let at = slot(q, item.time);
    if i < at {
        assert(q[i] == joined(q, item)[i]);
    } else if i > at {
        assert(q[i - 1] == joined(q, item)[i]);
    }
}

/// Puts `item` at its joining place in `q`.
pub fn join<E>(q: &mut Vec<Scheduled<E>>, item: Scheduled<E>)
    requires
        ascending(old(q)@),
    ensures
        final(q)@ == joined(old(q)@, item),
        ascending(final(q)@),
{
    let n: usize = q.len();
    let mut i: usize = 0;
    while i < n && q[i].time.raw <= item.time.raw
        invariant
            n == q@.len(),
            0 <= i <= n,
            q@ == old(q)@,
            forall|j: int| 0 <= j < i ==> (#[trigger] q@[j]).time.raw <= item.time.raw,
        decreases n - i,
    {
        i = i + 1;
    }
    proof {
        let s = old(q)@;
        assert forall|j: int| i <= j < s.len() implies (#[trigger] s[j]).time.raw
            > item.time.raw by {
            assert(s[i as int].time.raw <= s[j].time.raw);
        }
        assert(is_slot(s, item.time, i as int));
        lemma_joined(s, item, Fixed { raw: 0 });
        lemma_slot_unique(s, item.time, i as int, slot(s, item.time));
    }
    q.insert(i, item);
}

impl<E> EngineState<E> {
    /// Events are in ascending order of time and none is due before the clock.
    pub open spec fn wf(self) -> bool {
        &&& ascending(self.queue)
        &&& forall|i: int|
            0 <= i < self.queue.len() ==> self.now.raw <= (#[trigger] self.queue[i]).time.raw
    }

    /// The time at which an event scheduled `after` from now is due.
    pub open spec fn due(self, after: Fixed) -> Fixed {
        self.now.plus_spec(after)
    }

    /// The state once `event` has been scheduled `after` from now.
    pub open spec fn scheduled(self, after: Fixed, event: E) -> EngineState<E> {
        EngineState {
            now: self.now,
            queue: joined(self.queue, Scheduled { time: self.due(after), event }),
        }
    }

    /// The state once the earliest event has left; the state itself where no
    /// event waits.
    pub open spec fn popped(self) -> EngineState<E> {
        if self.queue.len() == 0 {
            self
        } else {
            EngineState { now: self.queue[0].time, queue: self.queue.remove(0) }
        }
    }

    /// Scheduling keeps the order of the queue and leaves the clock alone.
    pub proof fn lemma_scheduled_wf(self, after: Fixed, event: E)
        requires
            self.wf(),
        ensures
            self.scheduled(after, event).wf(),
            self.scheduled(after, event).now == self.now,
            self.scheduled(after, event).queue.len() == self.queue.len() + 1,
    {
        lemma_joined(self.queue, Scheduled { time: self.due(after), event }, self.now);
    }

    /// Virtual time never runs backwards: the event that leaves is due no
    /// earlier than the clock stood, the clock then stands at exactly that
    /// time, and every event still waiting is due no earlier.
    pub proof fn lemma_popped_wf(self)
        requires
            self.wf(),
        ensures
            self.popped().wf(),
            self.now.raw <= self.popped().now.raw,
            self.queue.len() > 0 ==> self.popped().now == self.queue[0].time,
            self.queue.len() == 0 ==> self.popped() == self,
    {
        if self.queue.len() > 0 {
            let q = self.queue;
            let r = self.popped().queue;
            assert(self.now.raw <= q[0].time.raw);
            assert forall|a: int, b: int| 0 <= a <= b < r.len() implies (#[trigger] r[a]).time.raw
                <= (#[trigger] r[b]).time.raw by {
                assert(r[a] == q[a + 1]);
                assert(r[b] == q[b + 1]);
            }
            assert forall|a: int| 0 <= a < r.len() implies q[0].time.raw <= (
            #[trigger] r[a]).time.raw by {
                assert(r[a] == q[a + 1]);
            }
        }
    }

    /// Two events that leave one after the other, with any one event
    /// scheduled in between, leave in ascending order of time.
    pub proof fn lemma_successive_pops_ascend(self, after: Fixed, event: E)
        requires
            self.wf(),
            self.queue.len() > 0,
        ensures
            self.queue[0].time.raw <= self.popped().scheduled(after, event).popped().now.raw,
            self.queue[0].time.raw <= self.popped().popped().now.raw,
    {
        self.lemma_popped_wf();
        let p = self.popped();
        p.lemma_popped_wf();
        p.lemma_scheduled_wf(after, event);
        p.scheduled(after, event).lemma_popped_wf();
    }
}

/// The event engine.
#[derive(Debug)]
pub struct Engine<E> {
    now: Fixed,
    events: Vec<Scheduled<E>>,
}

impl<E> View for Engine<E> {
    type V = EngineState<E>;

    closed spec fn view(&self) -> EngineState<E> {
        EngineState { now: self.now, queue: self.events@ }
    }
}

impl<E> Engine<E> {
    /// The engine's invariant: that of its state.
    pub open spec fn wf(&self) -> bool {
        self@.wf()
    }

    /// An engine with no event, its clock at zero.
    pub fn new() -> (r: Engine<E>)
        ensures
            r.wf(),
            r@.now.raw == 0,
            r@.queue.len() == 0,
    {
        Engine { now: Fixed::zero(), events: Vec::new() }
    }

    /// Schedules `event` to be due `after` from now.
    pub fn schedule(&mut self, after: Fixed, event: E)
        requires
            old(self).wf(),
        ensures
            final(self).wf(),
            final(self)@ == old(self)@.scheduled(after, event),
            final(self)@.now == old(self)@.now,
    {
        let time = self.now.plus(after);
        proof {
            assert(time == old(self)@.due(after));
            old(self)@.lemma_scheduled_wf(after, event);
        }
        join(&mut self.events, Scheduled { time, event });
    }

    /// Takes the earliest event out and sets the clock to its time. Without
    /// an event, nothing changes.
    pub fn pop(&mut self) -> (r: Option<E>)
        requires
            old(self).wf(),
        ensures
            final(self).wf(),
            final(self)@ == old(self)@.popped(),
            old(self)@.now.raw <= final(self)@.now.raw,
            match r {
                Some(event) => old(self)@.queue.len() > 0 && event == old(self)@.queue[0].event
                    && final(self)@.now == old(self)@.queue[0].time,
                None => old(self)@.queue.len() == 0,
            },
    {
        proof {
            old(self)@.lemma_popped_wf();
        }
        if self.events.len() == 0 {
            return None;
        }
        let first = self.events.remove(0);
        self.now = first.time;
        Some(first.event)
    }

    /// The time on the clock.
    pub fn now(&self) -> (r: Fixed)
        ensures
            r == self@.now,
    {
        self.now
    }

    /// How many events wait.
    pub fn len(&self) -> (r: usize)
        ensures
            r == self@.queue.len(),
    {
        self.events.len()
    }

    pub fn is_empty(&self) -> (r: bool)
        ensures
            r == (self@.queue.len() == 0),
    {
        self.events.len() == 0
    }
}

impl<E> Default for Engine<E> {
    /// An engine with no event, its clock at zero.
    fn default() -> (r: Engine<E>)
        ensures
            r.wf(),
            r@.now.raw == 0,
            r@.queue.len() == 0,
    {
        Engine::new()
    }
}

} // verus!
