use vstd::prelude::*;

verus! {

/// A replacement of the text in `start..end` (offsets counted in characters) by `text`.
#[derive(Clone, Debug, PartialEq, Eq)]
pub struct Edit {
    pub start: usize,
    pub end: usize,
    pub text: Vec<char>,
}

/// One change that the user made between two versions of a buffer: the text in
/// `old_start..old_end` of the older version became `new_start..new_end` of the newer one.
#[derive(Clone, Copy, Debug, PartialEq, Eq)]
pub struct UserEdit {
    pub old_start: usize,
    pub old_end: usize,
    pub new_start: usize,
    pub new_end: usize,
}

/// An edit as a mathematical value: its range and its replacement.
pub struct EditSpec {
    pub start: int,
    pub end: int,
    pub text: Seq<char>,
}

impl View for Edit {
    type V = EditSpec;

    open spec fn view(&self) -> EditSpec {
        EditSpec { start: self.start as int, end: self.end as int, text: self.text@ }
    }
}

/// The views of a list of edits.
pub open spec fn edits_view(edits: Seq<Edit>) -> Seq<EditSpec> {
    edits.map_values(|e: Edit| e@)
}

/// Edits that lie inside a text of `len` characters, in order and without overlap.
pub open spec fn edits_wf(edits: Seq<EditSpec>, len: int) -> bool {
    &&& forall|j: int| 0 <= j < edits.len() ==> 0 <= #[trigger] edits[j].start <= edits[j].end <= len
    &&& forall|a: int, b: int|
        0 <= a < b < edits.len() ==> #[trigger] edits[a].end <= #[trigger] edits[b].start
}

/// Where the unchanged text before user edit `k` begins, in the old and in the new version.
pub open spec fn prev_ends(users: Seq<UserEdit>, k: int) -> (int, int) {
    if k <= 0 {
        (0, 0)
    } else {
        (users[k - 1].old_end as int, users[k - 1].new_end as int)
    }
}

/// The user's edits turn a text of `old_len` characters into one of `new_len`: they come
/// in order, and each stretch of unchanged text between them has the same length
/// before and after.
pub open spec fn user_edits_wf(users: Seq<UserEdit>, old_len: int, new_len: int) -> bool {
    &&& forall|k: int|
        #![trigger users[k]]
        0 <= k < users.len() ==> {
            let (po, pn) = prev_ends(users, k);
            &&& po <= users[k].old_start <= users[k].old_end
            &&& users[k].new_start <= users[k].new_end
            &&& users[k].old_end <= old_len && users[k].new_end <= new_len
            &&& users[k].old_start - po == users[k].new_start - pn
        }
    &&& {
        let (po, pn) = prev_ends(users, users.len() as int);
        po <= old_len && old_len - po == new_len - pn
    }
}

} // verus!

verus! {

/// Whether `edits` lie inside a text of `len` characters, in order and without overlap.
pub fn edits_are_well_formed(edits: &Vec<Edit>, len: usize) -> (r: bool)
    ensures
        r == edits_wf(edits_view(edits@), len as int),
{
    let ghost v = edits_view(edits@);
    let mut k: usize = 0;
    while k < edits.len()
        invariant
            k <= edits.len(),
            v == edits_view(edits@),
            forall|j: int| 0 <= j < k ==> 0 <= #[trigger] v[j].start <= v[j].end <= len,
            forall|a: int, b: int| 0 <= a < b < k ==> #[trigger] v[a].end <= #[trigger] v[b].start,
        decreases edits.len() - k,
    {
        let e = &edits[k];
        assert(v[k as int] == e@);
        if !(e.start <= e.end && e.end <= len) {
            assert(!(0 <= v[k as int].start <= v[k as int].end <= len));
            return false;
        }
        if k > 0 && edits[k - 1].end > e.start {
            assert(v[k - 1].end > v[k as int].start);
            return false;
        }
        assert forall|a: int, b: int| 0 <= a < b < k + 1 implies #[trigger] v[a].end
            <= #[trigger] v[b].start by {
            if b == k && a < k - 1 {
                assert(v[a].end <= v[k - 1].start);
            }
        }
        k = k + 1;
    }
    true
}

/// Whether `users` turn a text of `old_len` characters into one of `new_len`.
pub fn user_edits_are_well_formed(users: &Vec<UserEdit>, old_len: usize, new_len: usize) -> (r:
    bool)
    ensures
        r == user_edits_wf(users@, old_len as int, new_len as int),
{
    let mut k: usize = 0;
    let mut po: usize = 0;
    let mut pn: usize = 0;
    while k < users.len()
        invariant
            k <= users.len(),
            (po as int, pn as int) == prev_ends(users@, k as int),
            forall|j: int|
                #![trigger users@[j]]
                0 <= j < k ==> {
                    let (a, b) = prev_ends(users@, j);
                    &&& a <= users@[j].old_start <= users@[j].old_end
                    &&& users@[j].new_start <= users@[j].new_end
                    &&& users@[j].old_end <= old_len && users@[j].new_end <= new_len
                    &&& users@[j].old_start - a == users@[j].new_start - b
                },
        decreases users.len() - k,
    {
        let u = users[k];
        if !(po <= u.old_start && u.old_start <= u.old_end && u.new_start <= u.new_end
            && u.old_end <= old_len && u.new_end <= new_len && pn <= u.new_start
            && u.old_start - po == u.new_start - pn) {
            assert(users@[k as int] == u);
            return false;
        }
        po = u.old_end;
        pn = u.new_end;
        k = k + 1;
    }
    po <= old_len && old_len - po == new_len - pn
}

} // verus!
