use vstd::prelude::*;

use std::collections::HashMap;

use crate::buffer::{BufferSnapshot, SnapshotSpec};
use crate::edit::{Edit, edits_view};
use crate::events::{Event, EventRing, EventSpec, admitted, events_view};
use crate::prediction::InlineCompletion;

verus! {

broadcast use vstd::std_specs::hash::group_hash_axioms;

impl Edit {
    /// A copy of this edit.
    pub fn duplicate(&self) -> (r: Edit)
        ensures
            r@ == self@,
    {
        Edit { start: self.start, end: self.end, text: self.text.clone() }
    }
}

/// A copy of a list of edits.
pub fn duplicate_edits(edits: &Vec<Edit>) -> (r: Vec<Edit>)
    ensures
        edits_view(r@) == edits_view(edits@),
{
    let mut r: Vec<Edit> = Vec::new();
    let mut i: usize = 0;
    while i < edits.len()
        invariant
            i <= edits.len(),
            edits_view(r@) == edits_view(edits@).take(i as int),
        decreases edits.len() - i,
    {
        let e = edits[i].duplicate();
        let ghost before = r@;
        r.push(e);
        assert(edits_view(r@) =~= edits_view(before).push(e@));
        assert(edits_view(edits@).take(i + 1) =~= edits_view(edits@).take(i as int).push(
            edits_view(edits@)[i as int],
        ));
        i = i + 1;
    }
    assert(edits_view(edits@).take(i as int) =~= edits_view(edits@));
    r
}

impl InlineCompletion {
    /// A copy of this prediction.
    pub fn duplicate(&self) -> (r: InlineCompletion)
        ensures
            r.id == self.id,
            r.path@ == self.path@,
            edits_view(r.edits@) == edits_view(self.edits@),
            r.snapshot@ == self.snapshot@,
    {
        InlineCompletion {
            id: self.id,
            path: self.path.clone(),
            edits: duplicate_edits(&self.edits),
            snapshot: self.snapshot.duplicate(),
        }
    }
}

/// The prediction engine: the buffers it watches, with the last snapshot seen of each,
/// the recent edit history, and the predictions shown so far, newest first.
pub struct Zeta {
    events: EventRing,
    registered_buffers: HashMap<u64, BufferSnapshot>,
    shown_completions: Vec<InlineCompletion>,
}

impl Zeta {
    /// The engine's state is consistent: its history is within bounds.
    pub closed spec fn wf(&self) -> bool {
        self.events.wf()
    }

    /// The recorded edit history, oldest first.
    pub closed spec fn history(&self) -> Seq<EventSpec> {
        self.events@
    }

    /// The last snapshot seen of each watched buffer.
    pub closed spec fn registered(&self) -> Map<u64, SnapshotSpec> {
        self.registered_buffers@.map_values(|s: BufferSnapshot| s@)
    }

    /// The predictions shown so far, newest first.
    pub closed spec fn shown(&self) -> Seq<InlineCompletion> {
        self.shown_completions@
    }

    /// How many predictions have been shown.
    pub open spec fn shown_count(&self) -> nat {
        self.shown().len()
    }

    pub fn new() -> (r: Zeta)
        ensures
            r.wf(),
            r.history() == Seq::<EventSpec>::empty(),
            r.registered() == Map::<u64, SnapshotSpec>::empty(),
            r.shown_count() == 0,
    {
        let r = Zeta {
            events: EventRing::new(),
            registered_buffers: HashMap::new(),
            shown_completions: Vec::new(),
        };
        assert(r.registered() =~= Map::<u64, SnapshotSpec>::empty());
        r
    }

    /// Forgets the edit history.
    pub fn clear_history(&mut self)
        requires
            old(self).wf(),
        ensures
            final(self).wf(),
            final(self).history() == Seq::<EventSpec>::empty(),
            final(self).registered() == old(self).registered(),
            final(self).shown() == old(self).shown(),
    {
        self.events.clear();
    }

    /// A copy of the edit history, oldest first.
    pub fn events(&self) -> (r: Vec<Event>)
        ensures
            events_view(r@) == self.history(),
    {
        self.events.snapshot()
    }

    /// Starts watching a buffer, whose snapshot now is `snapshot`; a buffer already
    /// watched is left as it is.
    pub fn register_buffer(&mut self, snapshot: &BufferSnapshot)
        requires
            old(self).wf(),
        ensures
            final(self).wf(),
            final(self).registered() == if old(self).registered().contains_key(snapshot.buffer_id) {
                old(self).registered()
            } else {
                old(self).registered().insert(snapshot.buffer_id, snapshot@)
            },
            final(self).history() == old(self).history(),
            final(self).shown() == old(self).shown(),
    {
        let id = snapshot.buffer_id;
        if !self.registered_buffers.contains_key(&id) {
            let copy = snapshot.duplicate();
            self.registered_buffers.insert(id, copy);
            assert(self.registered() =~= old(self).registered().insert(id, snapshot@));
        }
    }

    /// Stops watching a buffer that was released.
    pub fn release_buffer(&mut self, buffer_id: u64)
        requires
            old(self).wf(),
        ensures
            final(self).wf(),
            final(self).registered() == old(self).registered().remove(buffer_id),
            final(self).history() == old(self).history(),
            final(self).shown() == old(self).shown(),
    {
        self.registered_buffers.remove(&buffer_id);
        assert(self.registered() =~= old(self).registered().remove(buffer_id));
    }

    /// Brings the engine up to date with a buffer whose snapshot now is `snapshot`, at
    /// time `now`: the buffer is watched from now on, and where its version moved since
    /// the last snapshot seen, the change joins the history. Returns the snapshot, the
    /// caller's view of the buffer for the rest of its work.
    pub fn report_changes_for_buffer(&mut self, snapshot: BufferSnapshot, now: u64) -> (r:
        BufferSnapshot)
        requires
            old(self).wf(),
        ensures
            final(self).wf(),
            r@ == snapshot@,
            ({
                let id = snapshot.buffer_id;
                if old(self).registered().contains_key(id) && old(self).registered()[id].version
                    != snapshot.version {
                    &&& final(self).registered() == old(self).registered().insert(id, snapshot@)
                    &&& final(self).history() == admitted(
                        old(self).history(),
                        EventSpec { old: old(self).registered()[id], new: snapshot@, timestamp: now },
                    )
                } else {
                    &&& final(self).registered() == if old(self).registered().contains_key(id) {
                        old(self).registered()
                    } else {
                        old(self).registered().insert(id, snapshot@)
                    }
                    &&& final(self).history() == old(self).history()
                }
            }),
            final(self).shown() == old(self).shown(),
    {
        let id = snapshot.buffer_id;
        self.register_buffer(&snapshot);
        let ghost mid = self.registered();
        let changed = match self.registered_buffers.get(&id) {
            Some(last) => {
                assert(mid[id] == last@);
                last.version != snapshot.version
            },
            None => false,
        };
        if changed {
            assert(old(self).registered().contains_key(id));
            assert(mid[id] == old(self).registered()[id]);
            let stored = self.registered_buffers.insert(id, snapshot.duplicate());
            match stored {
                Some(previous) => {
                    assert(previous@ == old(self).registered()[id]);
                    assert(self.registered() =~= old(self).registered().insert(id, snapshot@));
                    let event = Event::buffer_change(previous, snapshot.duplicate(), now);
                    self.events.push(event);
                },
                None => {},
            }
        }
        snapshot
    }

    /// Records that a prediction was shown.
    pub fn completion_shown(&mut self, completion: &InlineCompletion)
        requires
            old(self).wf(),
        ensures
            final(self).wf(),
            final(self).shown_count() == old(self).shown_count() + 1,
            final(self).shown().skip(1) == old(self).shown(),
            final(self).shown()[0].id == completion.id,
            final(self).shown()[0].path@ == completion.path@,
            edits_view(final(self).shown()[0].edits@) == edits_view(completion.edits@),
            final(self).shown()[0].snapshot@ == completion.snapshot@,
            final(self).history() == old(self).history(),
            final(self).registered() == old(self).registered(),
    {
        let copy = completion.duplicate();
        self.shown_completions.insert(0, copy);
        assert(self.shown().skip(1) =~= old(self).shown());
    }

    /// The predictions shown so far, newest first.
    pub fn shown_completions(&self) -> (r: &Vec<InlineCompletion>)
        ensures
            r@ == self.shown(),
    {
        &self.shown_completions
    }

    pub fn shown_completions_len(&self) -> (r: usize)
        ensures
            r == self.shown_count(),
    {
        self.shown_completions.len()
    }
}

} // verus!
