use vstd::prelude::*;

use crate::buffer::{BufferSnapshot, SnapshotSpec};

verus! {

/// How many events the ring keeps at most.
pub const MAX_EVENT_COUNT: usize = 16;

/// Changes to one buffer that follow each other within this many milliseconds are
/// recorded as one event.
pub const BUFFER_CHANGE_GROUPING_INTERVAL_MS: u64 = 1000;

/// A change of a buffer from one snapshot to a later one, at `timestamp` (milliseconds of
/// a monotonic clock).
#[derive(Debug)]
pub struct Event {
    pub old_snapshot: BufferSnapshot,
    pub new_snapshot: BufferSnapshot,
    pub timestamp: u64,
}

/// An event as a mathematical value.
pub struct EventSpec {
    pub old: SnapshotSpec,
    pub new: SnapshotSpec,
    pub timestamp: u64,
}

impl View for Event {
    type V = EventSpec;

    open spec fn view(&self) -> EventSpec {
        EventSpec { old: self.old_snapshot@, new: self.new_snapshot@, timestamp: self.timestamp }
    }
}

impl Event {
    pub fn buffer_change(old_snapshot: BufferSnapshot, new_snapshot: BufferSnapshot, timestamp: u64) -> (r:
        Event)
        ensures
            r@ == (EventSpec { old: old_snapshot@, new: new_snapshot@, timestamp }),
    {
        Event { old_snapshot, new_snapshot, timestamp }
    }

    /// A copy of this event.
    pub fn duplicate(&self) -> (r: Event)
        ensures
            r@ == self@,
    {
        Event {
            old_snapshot: self.old_snapshot.duplicate(),
            new_snapshot: self.new_snapshot.duplicate(),
            timestamp: self.timestamp,
        }
    }
}

/// The views of a list of events.
pub open spec fn events_view(events: Seq<Event>) -> Seq<EventSpec> {
    events.map_values(|e: Event| e@)
}

proof fn lemma_events_view_push(s: Seq<Event>, e: Event)
    ensures
        events_view(s.push(e)) == events_view(s).push(e@),
{
    assert(events_view(s.push(e)) =~= events_view(s).push(e@));
}

/// Whether `e` continues the change recorded in `last`: same buffer, starting from the
/// version where `last` ended, and soon enough after it.
pub open spec fn continues(last: EventSpec, e: EventSpec) -> bool {
    &&& e.timestamp - last.timestamp <= BUFFER_CHANGE_GROUPING_INTERVAL_MS
    &&& e.old.buffer_id == last.new.buffer_id
    &&& e.old.version == last.new.version
}

/// The ring after admitting `e`: a continuing event extends the last one in place;
/// otherwise `e` is appended, and when that fills the ring its older half is dropped.
pub open spec fn admitted(ring: Seq<EventSpec>, e: EventSpec) -> Seq<EventSpec> {
    if ring.len() > 0 && continues(ring.last(), e) {
        ring.update(
            ring.len() - 1,
            EventSpec { old: ring.last().old, new: e.new, timestamp: e.timestamp },
        )
    } else if ring.len() + 1 >= MAX_EVENT_COUNT {
        ring.push(e).skip((MAX_EVENT_COUNT / 2) as int)
    } else {
        ring.push(e)
    }
}

/// The ring after admitting each of `events` in turn.
pub open spec fn admitted_all(ring: Seq<EventSpec>, events: Seq<EventSpec>) -> Seq<EventSpec>
    decreases events.len(),
{
    if events.len() == 0 {
        ring
    } else {
        admitted_all(admitted(ring, events[0]), events.drop_first())
    }
}

/// The recent edit history: a bounded, ordered list of buffer changes, oldest first.
pub struct EventRing {
    events: Vec<Event>,
}

impl View for EventRing {
    type V = Seq<EventSpec>;

    closed spec fn view(&self) -> Seq<EventSpec> {
        events_view(self.events@)
    }
}

impl EventRing {
    /// The ring holds fewer events than its capacity.
    pub open spec fn wf(&self) -> bool {
        self@.len() < MAX_EVENT_COUNT
    }

    pub fn new() -> (r: EventRing)
        ensures
            r.wf(),
            r@ == Seq::<EventSpec>::empty(),
    {
        EventRing { events: Vec::new() }
    }

    pub fn len(&self) -> (r: usize)
        ensures
            r == self@.len(),
    {
        self.events.len()
    }

    /// Records a buffer change, extending the last event where the change continues it.
    pub fn push(&mut self, event: Event)
        requires
            old(self).wf(),
        ensures
            final(self).wf(),
            final(self)@ == admitted(old(self)@, event@),
    {
        let n = self.events.len();
        if n > 0 {
            let last = &self.events[n - 1];
            assert(self@.last() == last@);
            let extends = (event.timestamp <= last.timestamp
                || event.timestamp - last.timestamp <= BUFFER_CHANGE_GROUPING_INTERVAL_MS)
                && event.old_snapshot.buffer_id == last.new_snapshot.buffer_id
                && event.old_snapshot.version == last.new_snapshot.version;
            if extends {
                let ghost before = self@;
                let mut last = self.events.pop().unwrap();
                last.new_snapshot = event.new_snapshot;
                last.timestamp = event.timestamp;
                self.events.push(last);
                assert(self@ =~= admitted(before, event@));
                return;
            }
        }
        let ghost before = self@;
        let ghost e = event@;
        self.events.push(event);
        assert(self@ =~= before.push(e));
        if self.events.len() >= MAX_EVENT_COUNT {
            // Half the ring goes at once, which keeps the start of the history stable
            // for longer than dropping one event at a time would.
            let kept = self.events.split_off(MAX_EVENT_COUNT / 2);
            self.events = kept;
            assert(self@ =~= before.push(e).skip((MAX_EVENT_COUNT / 2) as int));
        }
    }

    /// Forgets every recorded event.
    pub fn clear(&mut self)
        ensures
            final(self).wf(),
            final(self)@ == Seq::<EventSpec>::empty(),
    {
        self.events.clear();
        assert(self@ =~= Seq::<EventSpec>::empty());
    }

    /// A copy of the recorded events, oldest first.
    pub fn snapshot(&self) -> (r: Vec<Event>)
        ensures
            events_view(r@) == self@,
    {
        let mut r: Vec<Event> = Vec::new();
        let mut i: usize = 0;
        while i < self.events.len()
            invariant
                i <= self.events.len(),
                events_view(r@) == self@.subrange(0, i as int),
            decreases self.events.len() - i,
        {
            let ghost before = r@;
            let d = self.events[i].duplicate();
            assert(self@[i as int] == d@);
            r.push(d);
            assert(r@ == before.push(d));
            proof {
                lemma_events_view_push(before, d);
            }
            assert(events_view(r@) =~= self@.subrange(0, i + 1));
            i = i + 1;
        }
        assert(self@.subrange(0, i as int) =~= self@);
        r
    }
}

/// However many events arrive, and in whatever order, the ring never holds more than
/// its capacity after any admission.
pub proof fn lemma_ring_stays_bounded(ring: Seq<EventSpec>, events: Seq<EventSpec>)
    requires
        ring.len() < MAX_EVENT_COUNT,
    ensures
        forall|k: int|
            0 <= k <= events.len() ==> #[trigger] admitted_all(ring, events.take(k)).len()
                <= MAX_EVENT_COUNT,
    decreases events.len(),
{
    assert forall|k: int| 0 <= k <= events.len() implies #[trigger] admitted_all(
        ring,
        events.take(k),
    ).len() <= MAX_EVENT_COUNT by {
        if k > 0 {
            let next = admitted(ring, events[0]);
            assert(next.len() < MAX_EVENT_COUNT);
            lemma_ring_stays_bounded(next, events.drop_first());
            assert(events.take(k).drop_first() =~= events.drop_first().take(k - 1));
            assert(admitted_all(next, events.drop_first().take(k - 1)).len() <= MAX_EVENT_COUNT);
        }
    }
}

/// Admitting an event that continues the last one does not lengthen the ring, and the
/// last event still starts from the version it started from before.
pub proof fn lemma_coalescing_keeps_start(ring: Seq<EventSpec>, e: EventSpec)
    requires
        ring.len() > 0,
        continues(ring.last(), e),
    ensures
        admitted(ring, e).len() <= ring.len(),
        admitted(ring, e).last().old.version == ring.last().old.version,
        admitted(ring, e).last().new == e.new,
{
}

} // verus!
