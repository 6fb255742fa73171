use vstd::prelude::*;

use crate::buffer::BufferSnapshot;
use crate::edit::{
    Edit, EditSpec, UserEdit, edits_are_well_formed, edits_view, edits_wf,
    user_edits_are_well_formed, user_edits_wf,
};
use crate::interpolate::{interpolate, interpolated};

verus! {

#[verifier::external_type_specification]
#[verifier::external_body]
pub struct ExUuid(uuid::Uuid);

/// Identifies a prediction: the id of the request that produced it.
#[derive(Copy, Clone, Debug, PartialEq, Eq, Hash)]
pub struct InlineCompletionId(pub uuid::Uuid);

/// A prediction: edits to a buffer, in offsets of the snapshot they were computed for.
#[derive(Debug)]
pub struct InlineCompletion {
    pub id: InlineCompletionId,
    pub path: Vec<char>,
    pub edits: Vec<Edit>,
    pub snapshot: BufferSnapshot,
}

impl InlineCompletion {
    /// The edits lie within the snapshot's text, in order and without overlap.
    pub open spec fn wf(&self) -> bool {
        edits_wf(edits_view(self.edits@), self.snapshot.text.len() as int)
    }

    /// The prediction carried over the user's edits since its snapshot, which turned that
    /// snapshot's text into `new_text`; `None` where the edits given do not fit the texts.
    pub open spec fn interpolated_to(
        &self,
        new_text: Seq<char>,
        user_edits: Seq<UserEdit>,
    ) -> Option<Seq<EditSpec>> {
        if edits_wf(edits_view(self.edits@), self.snapshot.text.len() as int) && user_edits_wf(
            user_edits,
            self.snapshot.text.len() as int,
            new_text.len() as int,
        ) {
            interpolated(new_text, user_edits, edits_view(self.edits@))
        } else {
            None
        }
    }

    /// This prediction's edits as they stand in a newer text of the same buffer, given the
    /// user's edits since the prediction's snapshot.
    pub fn interpolate(&self, new_text: &Vec<char>, user_edits: &Vec<UserEdit>) -> (r: Option<
        Vec<Edit>,
    >)
        ensures
            match r {
                Some(v) => self.interpolated_to(new_text@, user_edits@) == Some(edits_view(v@)),
                None => self.interpolated_to(new_text@, user_edits@) is None,
            },
            r matches Some(v) ==> edits_wf(edits_view(v@), new_text.len() as int),
    {
        let old_len = self.snapshot.text.len();
        if !edits_are_well_formed(&self.edits, old_len) || !user_edits_are_well_formed(
            user_edits,
            old_len,
            new_text.len(),
        ) {
            return None;
        }
        interpolate(new_text, user_edits, &self.edits)
    }
}

/// The prediction a provider shows, with the buffer it was made for.
#[derive(Debug)]
pub struct CurrentInlineCompletion {
    pub buffer_id: u64,
    pub completion: InlineCompletion,
}

/// Whether `old` and `new` are each one edit of the same range.
pub open spec fn same_single_range(old: Seq<EditSpec>, new: Seq<EditSpec>) -> bool {
    old.len() == 1 && new.len() == 1 && new[0].start == old[0].start && new[0].end == old[0].end
}

/// Whether `new` may take the place of `old`: where both are one edit of the same range,
/// only when the new replacement extends the old one; otherwise always.
pub open spec fn extends_single(old: Seq<EditSpec>, new: Seq<EditSpec>) -> bool {
    same_single_range(old, new) ==> old[0].text.is_prefix_of(new[0].text)
}

/// Whether a newly arrived prediction should take the place of the one shown: always for
/// another buffer or when the shown one no longer applies; never when the new one does
/// not apply; where both are one edit of the same range, only when the new replacement
/// extends the old; and otherwise always.
pub open spec fn should_replace(
    new: CurrentInlineCompletion,
    old: CurrentInlineCompletion,
    text: Seq<char>,
    new_user_edits: Seq<UserEdit>,
    old_user_edits: Seq<UserEdit>,
) -> bool {
    if new.buffer_id != old.buffer_id {
        true
    } else {
        match old.completion.interpolated_to(text, old_user_edits) {
            None => true,
            Some(o) => match new.completion.interpolated_to(text, new_user_edits) {
                None => false,
                Some(n) => extends_single(o, n),
            },
        }
    }
}

/// Whether `a` begins `b`.
fn is_prefix(a: &Vec<char>, b: &Vec<char>) -> (r: bool)
    ensures
        r == a@.is_prefix_of(b@),
{
    if a.len() > b.len() {
        return false;
    }
    let mut i: usize = 0;
    while i < a.len()
        invariant
            i <= a.len() <= b.len(),
            forall|k: int| 0 <= k < i ==> a@[k] == b@[k],
        decreases a.len() - i,
    {
        if a[i] != b[i] {
            return false;
        }
        i = i + 1;
    }
    assert(a@ =~= b@.subrange(0, a.len() as int));
    true
}

impl CurrentInlineCompletion {
    /// Decides whether this newly arrived prediction replaces `old_completion`, both
    /// judged against the buffer's text now; `self_user_edits` and `old_user_edits` are
    /// the user's edits since each one's snapshot.
    pub fn should_replace_completion(
        &self,
        old_completion: &CurrentInlineCompletion,
        text: &Vec<char>,
        self_user_edits: &Vec<UserEdit>,
        old_user_edits: &Vec<UserEdit>,
    ) -> (r: bool)
        ensures
            r == should_replace(*self, *old_completion, text@, self_user_edits@, old_user_edits@),
    {
        if self.buffer_id != old_completion.buffer_id {
            return true;
        }
        let old_edits = match old_completion.completion.interpolate(text, old_user_edits) {
            Some(e) => e,
            None => {
                return true;
            },
        };
        let new_edits = match self.completion.interpolate(text, self_user_edits) {
            Some(e) => e,
            None => {
                return false;
            },
        };
        if old_edits.len() == 1 && new_edits.len() == 1 {
            let o = &old_edits[0];
            let n = &new_edits[0];
            assert(edits_view(old_edits@)[0] == o@);
            assert(edits_view(new_edits@)[0] == n@);
            if n.start == o.start && n.end == o.end {
                is_prefix(&o.text, &n.text)
            } else {
                true
            }
        } else {
            true
        }
    }
}

} // verus!
