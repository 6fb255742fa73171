use vstd::prelude::*;

use arrayvec::ArrayVec;

use crate::edit::{Edit, EditSpec, UserEdit, edits_view};
use crate::pending::{
    pending_as_vec, pending_clear, pending_ids, pending_len, pending_new, pending_pop,
    pending_push, pending_remove,
};
use crate::prediction::{CurrentInlineCompletion, InlineCompletionId, should_replace};

verus! {

/// The least time between two requests of one provider, in milliseconds.
pub const THROTTLE_TIMEOUT_MS: u64 = 300;

/// The requests in flight after a new one, `id`, is admitted: with two already in flight,
/// the newer of them gives way, so the oldest request is kept.
pub open spec fn admitted_request(pending: Seq<u64>, id: u64) -> Seq<u64> {
    if pending.len() <= 1 {
        pending.push(id)
    } else {
        pending.drop_last().push(id)
    }
}

/// The requests in flight once request `id` has finished: it leaves when it is the
/// oldest; otherwise every request in flight is abandoned.
pub open spec fn finished_request(pending: Seq<u64>, id: u64) -> Seq<u64> {
    if pending.len() > 0 && pending[0] == id {
        pending.drop_first()
    } else {
        Seq::empty()
    }
}

/// How long a request must wait so that it comes at least the throttle timeout after
/// the previous one, started at `last`; `now` is the time at hand.
pub open spec fn throttle_wait(last: u64, now: u64) -> u64 {
    if last as int + THROTTLE_TIMEOUT_MS as int <= now as int {
        0
    } else if last as int + THROTTLE_TIMEOUT_MS as int - now as int > u64::MAX as int {
        u64::MAX
    } else {
        (last as int + THROTTLE_TIMEOUT_MS as int - now as int) as u64
    }
}

/// The number of line breaks before position `off` of `t`: the row that `off` is on.
pub open spec fn row_of(t: Seq<char>, off: int) -> nat
    decreases off,
{
    if off <= 0 {
        0
    } else if off > t.len() {
        row_of(t, t.len() as int)
    } else {
        row_of(t, off - 1) + if t[off - 1] == '\n' {
            1nat
        } else {
            0nat
        }
    }
}

pub open spec fn abs_diff(a: nat, b: nat) -> nat {
    if a >= b {
        (a - b) as nat
    } else {
        (b - a) as nat
    }
}

/// How far an edit is from the cursor's row: from the nearer of its two ends.
pub open spec fn row_distance(t: Seq<char>, cursor_row: nat, e: EditSpec) -> nat {
    let a = abs_diff(cursor_row, row_of(t, e.start));
    let b = abs_diff(cursor_row, row_of(t, e.end));
    if a <= b {
        a
    } else {
        b
    }
}

/// Whether `c` is the edit nearest to the cursor's row: no edit is nearer, and every
/// earlier one is farther (the first of the nearest wins).
pub open spec fn is_closest_edit(t: Seq<char>, cursor_row: nat, edits: Seq<EditSpec>, c: int) -> bool {
    &&& 0 <= c < edits.len()
    &&& forall|j: int|
        0 <= j < edits.len() ==> row_distance(t, cursor_row, edits[c]) <= row_distance(
            t,
            cursor_row,
            #[trigger] edits[j],
        )
    &&& forall|j: int|
        0 <= j < c ==> row_distance(t, cursor_row, #[trigger] edits[j]) > row_distance(
            t,
            cursor_row,
            edits[c],
        )
}

/// The edit nearest to the cursor's row.
pub open spec fn closest_edit(t: Seq<char>, cursor_row: nat, edits: Seq<EditSpec>) -> int {
    choose|c: int| is_closest_edit(t, cursor_row, edits, c)
}

/// Whether edit `k` starts at most one row below the row where edit `k - 1` ends.
pub open spec fn adjacent_rows(t: Seq<char>, edits: Seq<EditSpec>, k: int) -> bool {
    let above = row_of(t, edits[k - 1].end);
    let below = row_of(t, edits[k].start);
    above <= below && below - above <= 1
}

/// Where the cluster that reaches down to edit `k` begins: earlier edits join while each
/// neighbour is within a row of the next.
pub open spec fn cluster_start(t: Seq<char>, edits: Seq<EditSpec>, k: int) -> int
    decreases k,
{
    if k <= 0 {
        0
    } else if adjacent_rows(t, edits, k) {
        cluster_start(t, edits, k - 1)
    } else {
        k
    }
}

/// Where the cluster that reaches up to edit `k - 1` ends: later edits join while each
/// neighbour is within a row of the one before.
pub open spec fn cluster_end(t: Seq<char>, edits: Seq<EditSpec>, k: int) -> int
    decreases edits.len() - k,
{
    if k >= edits.len() || k <= 0 {
        edits.len() as int
    } else if adjacent_rows(t, edits, k) {
        cluster_end(t, edits, k + 1)
    } else {
        k
    }
}

/// The edits offered to the editor: the cluster of edits around the one nearest the
/// cursor.
pub open spec fn suggested_edits(t: Seq<char>, cursor: int, edits: Seq<EditSpec>) -> Seq<EditSpec> {
    let c = closest_edit(t, row_of(t, cursor), edits);
    edits.subrange(cluster_start(t, edits, c), cluster_end(t, edits, c + 1))
}

/// What a provider offers the editor to show: edits of the current prediction.
#[derive(Debug)]
pub struct EditPredictionSuggestion {
    pub id: InlineCompletionId,
    pub edits: Vec<Edit>,
}

/// The row that position `off` of `t` is on.
pub fn row_at(t: &Vec<char>, off: usize) -> (r: u64)
    ensures
        r == row_of(t@, off as int),
{
    let end = if off <= t.len() {
        off
    } else {
        t.len()
    };
    let mut i: usize = 0;
    let mut row: u64 = 0;
    while i < end
        invariant
            i <= end <= t.len(),
            end == off || (off > t.len() && end == t.len()),
            row == row_of(t@, i as int),
            row <= i,
        decreases end - i,
    {
        if t[i] == '\n' {
            row = row + 1;
        }
        i = i + 1;
    }
    row
}

/// Per-editor state of edit prediction: the requests in flight, the next request id, the
/// prediction shown, and when the last request started (milliseconds of a monotonic
/// clock).
pub struct ZetaInlineCompletionProvider {
    pending_completions: ArrayVec<u64, 2>,
    next_pending_completion_id: u64,
    current_completion: Option<CurrentInlineCompletion>,
    last_request_timestamp: u64,
}

impl ZetaInlineCompletionProvider {
    pub closed spec fn pending(&self) -> Seq<u64> {
        pending_ids(self.pending_completions)
    }

    pub closed spec fn next_id(&self) -> u64 {
        self.next_pending_completion_id
    }

    pub closed spec fn current(&self) -> Option<CurrentInlineCompletion> {
        self.current_completion
    }

    pub closed spec fn last_request(&self) -> u64 {
        self.last_request_timestamp
    }

    pub fn new(now: u64) -> (r: Self)
        ensures
            r.pending() == Seq::<u64>::empty(),
            r.next_id() == 0,
            r.current() is None,
            r.last_request() == now,
    {
        ZetaInlineCompletionProvider {
            pending_completions: pending_new(),
            next_pending_completion_id: 0,
            current_completion: None,
            last_request_timestamp: now,
        }
    }

    /// Whether a request is in flight.
    pub fn is_refreshing(&self) -> (r: bool)
        ensures
            r == (self.pending().len() > 0),
    {
        pending_len(&self.pending_completions) > 0
    }

    /// The requests in flight, oldest first.
    pub fn pending_requests(&self) -> (r: Vec<u64>)
        ensures
            r@ == self.pending(),
    {
        pending_as_vec(&self.pending_completions)
    }

    /// When the last request started.
    pub fn last_request_timestamp(&self) -> (r: u64)
        ensures
            r == self.last_request(),
    {
        self.last_request_timestamp
    }

    /// The id the next request will get.
    pub fn next_request_id(&self) -> (r: u64)
        ensures
            r == self.next_id(),
    {
        self.next_pending_completion_id
    }

    /// The prediction shown, if any.
    pub fn current_completion(&self) -> (r: &Option<CurrentInlineCompletion>)
        ensures
            *r == self.current(),
    {
        &self.current_completion
    }

    /// Asks for a new prediction, unless the one shown still applies to the buffer's text
    /// `text` (reached by `user_edits` since its snapshot). Returns the id of the new
    /// request, which the caller starts once `throttle_delay` has passed.
    pub fn refresh(&mut self, text: &Vec<char>, user_edits: &Vec<UserEdit>) -> (r: Option<u64>)
        requires
            old(self).next_id() < u64::MAX,
        ensures
            ({
                let still_shown = match old(self).current() {
                    Some(c) => c.completion.interpolated_to(text@, user_edits@) is Some,
                    None => false,
                };
                if still_shown {
                    r is None && final(self).pending() == old(self).pending() && final(self).next_id()
                        == old(self).next_id()
                } else {
                    r == Some(old(self).next_id()) && final(self).next_id() == old(self).next_id()
                        + 1 && final(self).pending() == admitted_request(
                        old(self).pending(),
                        old(self).next_id(),
                    )
                }
            }),
            final(self).current() == old(self).current(),
            final(self).last_request() == old(self).last_request(),
    {
        if let Some(current) = &self.current_completion {
            if current.completion.interpolate(text, user_edits).is_some() {
                return None;
            }
        }
        let id = self.next_pending_completion_id;
        self.next_pending_completion_id = id + 1;
        if pending_len(&self.pending_completions) <= 1 {
            pending_push(&mut self.pending_completions, id);
        } else {
            pending_pop(&mut self.pending_completions);
            pending_push(&mut self.pending_completions, id);
        }
        Some(id)
    }

    /// How long, from `now`, a request must wait to keep the throttle timeout after the
    /// previous one.
    pub fn throttle_delay(&self, now: u64) -> (r: u64)
        ensures
            r == throttle_wait(self.last_request(), now),
    {
        let last = self.last_request_timestamp;
        if now >= last {
            let since = now - last;
            if since >= THROTTLE_TIMEOUT_MS {
                0
            } else {
                THROTTLE_TIMEOUT_MS - since
            }
        } else if last - now > u64::MAX - THROTTLE_TIMEOUT_MS {
            u64::MAX
        } else {
            last - now + THROTTLE_TIMEOUT_MS
        }
    }

    /// Records that a request starts at `now`, no earlier than the last one.
    pub fn request_started(&mut self, now: u64)
        requires
            now >= old(self).last_request(),
        ensures
            final(self).last_request() == now,
            final(self).pending() == old(self).pending(),
            final(self).next_id() == old(self).next_id(),
            final(self).current() == old(self).current(),
    {
        self.last_request_timestamp = now;
    }

    /// Records the outcome of request `id`: `None` where it failed or brought nothing. A
    /// prediction it brought is shown when none is, or when it should replace the one
    /// shown, judged against the buffer's text `text` (`new_user_edits` and
    /// `old_user_edits` lead there from each prediction's snapshot). Returns whether the
    /// new prediction is now shown.
    pub fn finish_request(
        &mut self,
        id: u64,
        completion: Option<CurrentInlineCompletion>,
        text: &Vec<char>,
        new_user_edits: &Vec<UserEdit>,
        old_user_edits: &Vec<UserEdit>,
    ) -> (r: bool)
        ensures
            final(self).pending() == finished_request(old(self).pending(), id),
            final(self).next_id() == old(self).next_id(),
            final(self).last_request() == old(self).last_request(),
            r == match completion {
                None => false,
                Some(n) => match old(self).current() {
                    None => true,
                    Some(c) => should_replace(n, c, text@, new_user_edits@, old_user_edits@),
                },
            },
            r ==> final(self).current() == completion,
            !r ==> final(self).current() == old(self).current(),
    {
        let ids = pending_as_vec(&self.pending_completions);
        if ids.len() > 0 && ids[0] == id {
            pending_remove(&mut self.pending_completions, 0);
            assert(old(self).pending().remove(0) =~= old(self).pending().drop_first());
        } else {
            pending_clear(&mut self.pending_completions);
        }
        match completion {
            None => false,
            Some(new_completion) => {
                let adopt = match &self.current_completion {
                    None => true,
                    Some(old_completion) => new_completion.should_replace_completion(
                        old_completion,
                        text,
                        new_user_edits,
                        old_user_edits,
                    ),
                };
                if adopt {
                    self.current_completion = Some(new_completion);
                }
                adopt
            },
        }
    }

    /// The prediction was accepted: requests in flight are abandoned.
    pub fn accept(&mut self)
        ensures
            final(self).pending() == Seq::<u64>::empty(),
            final(self).current() == old(self).current(),
            final(self).next_id() == old(self).next_id(),
            final(self).last_request() == old(self).last_request(),
    {
        pending_clear(&mut self.pending_completions);
    }

    /// The prediction was dismissed: requests in flight are abandoned and nothing is shown.
    pub fn discard(&mut self)
        ensures
            final(self).pending() == Seq::<u64>::empty(),
            final(self).current() is None,
            final(self).next_id() == old(self).next_id(),
            final(self).last_request() == old(self).last_request(),
    {
        pending_clear(&mut self.pending_completions);
        self.current_completion = None;
    }
}

} // verus!

verus! {

fn distance_to(t: &Vec<char>, cursor_row: u64, e: &Edit) -> (r: u64)
    ensures
        r == row_distance(t@, cursor_row as nat, e@),
{
    let a = row_at(t, e.start);
    let b = row_at(t, e.end);
    let da = if cursor_row >= a {
        cursor_row - a
    } else {
        a - cursor_row
    };
    let db = if cursor_row >= b {
        cursor_row - b
    } else {
        b - cursor_row
    };
    if da <= db {
        da
    } else {
        db
    }
}

impl ZetaInlineCompletionProvider {
    /// The edits to show for the buffer `buffer_id`, whose text is now `text` (reached by
    /// `user_edits` from the shown prediction's snapshot), with the cursor at `cursor`.
    /// A prediction for another buffer, or one that no longer applies, is dropped.
    pub fn suggest(
        &mut self,
        buffer_id: u64,
        text: &Vec<char>,
        user_edits: &Vec<UserEdit>,
        cursor: usize,
    ) -> (r: Option<EditPredictionSuggestion>)
        ensures
            final(self).pending() == old(self).pending(),
            final(self).next_id() == old(self).next_id(),
            final(self).last_request() == old(self).last_request(),
            match old(self).current() {
                None => r is None && final(self).current() is None,
                Some(c) => if c.buffer_id != buffer_id {
                    r is None && final(self).current() is None
                } else {
                    match c.completion.interpolated_to(text@, user_edits@) {
                        None => r is None && final(self).current() is None,
                        Some(es) => final(self).current() == old(self).current() && (es.len()
                            == 0 ==> r is None) && (es.len() > 0 ==> (r matches Some(s) && s.id
                            == c.completion.id && edits_view(s.edits@) == suggested_edits(
                            text@,
                            cursor as int,
                            es,
                        ))),
                    }
                },
            },
    {
        let edits = match &self.current_completion {
            None => {
                return None;
            },
            Some(current) => {
                if current.buffer_id != buffer_id {
                    self.current_completion = None;
                    return None;
                }
                match current.completion.interpolate(text, user_edits) {
                    Some(e) => e,
                    None => {
                        self.current_completion = None;
                        return None;
                    },
                }
            },
        };
        let id = match &self.current_completion {
            Some(current) => current.completion.id,
            None => {
                return None;
            },
        };
        if edits.len() == 0 {
            return None;
        }
        let ghost es = edits_view(edits@);
        let cursor_row = row_at(text, cursor);
        let ghost cr = cursor_row as nat;
        let mut closest: usize = 0;
        let mut best = distance_to(text, cursor_row, &edits[0]);
        let mut k: usize = 1;
        assert(es[0] == edits[0]@);
        while k < edits.len()
            invariant
                1 <= k <= edits.len(),
                es == edits_view(edits@),
                cr == cursor_row as nat,
                closest < k,
                best == row_distance(text@, cr, es[closest as int]),
                forall|j: int| 0 <= j < k ==> best <= row_distance(text@, cr, #[trigger] es[j]),
                forall|j: int| 0 <= j < closest ==> row_distance(text@, cr, #[trigger] es[j]) > best,
            decreases edits.len() - k,
        {
            let d = distance_to(text, cursor_row, &edits[k]);
            assert(es[k as int] == edits[k as int]@);
            if d < best {
                closest = k;
                best = d;
            }
            k = k + 1;
        }
        proof {
            assert(is_closest_edit(text@, cr, es, closest as int));
            let c = closest_edit(text@, cr, es);
            assert(is_closest_edit(text@, cr, es, c));
            if c < closest {
                assert(row_distance(text@, cr, es[c]) > best);
            } else if c > closest {
                assert(row_distance(text@, cr, es[closest as int]) > row_distance(text@, cr, es[c]));
            }
            assert(c == closest);
        }
        let mut start = closest;
        while start > 0
            invariant
                start <= closest < edits.len(),
                es == edits_view(edits@),
                cluster_start(text@, es, start as int) == cluster_start(text@, es, closest as int),
            ensures
                start <= closest,
                start as int == cluster_start(text@, es, closest as int),
            decreases start,
        {
            let above = row_at(text, edits[start - 1].end);
            let below = row_at(text, edits[start].start);
            assert(es[start - 1] == edits[start - 1]@);
            assert(es[start as int] == edits[start as int]@);
            if above <= below && below - above <= 1 {
                start = start - 1;
            } else {
                assert(cluster_start(text@, es, start as int) == start as int);
                break;
            }
        }
        let mut end = closest + 1;
        while end < edits.len()
            invariant
                closest < end <= edits.len(),
                es == edits_view(edits@),
                cluster_end(text@, es, end as int) == cluster_end(text@, es, closest + 1),
            ensures
                closest < end <= edits.len(),
                end as int == cluster_end(text@, es, closest + 1),
            decreases edits.len() - end,
        {
            let above = row_at(text, edits[end - 1].end);
            let below = row_at(text, edits[end].start);
            assert(es[end - 1] == edits[end - 1]@);
            assert(es[end as int] == edits[end as int]@);
            if above <= below && below - above <= 1 {
                end = end + 1;
            } else {
                assert(cluster_end(text@, es, end as int) == end as int);
                break;
            }
        }
        let mut chosen: Vec<Edit> = Vec::new();
        let mut i: usize = start;
        while i < end
            invariant
                start <= i <= end <= edits.len(),
                es == edits_view(edits@),
                edits_view(chosen@) == es.subrange(start as int, i as int),
            decreases end - i,
        {
            let e = &edits[i];
            let copy = Edit { start: e.start, end: e.end, text: e.text.clone() };
            assert(copy@ == es[i as int]);
            let ghost before = chosen@;
            chosen.push(copy);
            assert(edits_view(chosen@) =~= edits_view(before).push(copy@));
            assert(es.subrange(start as int, i + 1) =~= es.subrange(start as int, i as int).push(
                es[i as int],
            ));
            i = i + 1;
        }
        Some(EditPredictionSuggestion { id, edits: chosen })
    }
}

} // verus!
