use vstd::prelude::*;

use crate::edit::{Edit, EditSpec, UserEdit, edits_view, edits_wf, prev_ends, user_edits_wf};

verus! {

/// An edit moved by `delta` characters.
pub open spec fn shifted(e: EditSpec, delta: int) -> EditSpec {
    EditSpec { start: e.start + delta, end: e.end + delta, text: e.text }
}

/// Puts `prefix` in front of a rebased list, if there is one.
pub open spec fn prepend(prefix: Seq<EditSpec>, rest: Option<Seq<EditSpec>>) -> Option<Seq<EditSpec>> {
    match rest {
        Some(r) => Some(prefix + r),
        None => None,
    }
}

/// What the user typed in place of `u`, read from the newer text.
pub open spec fn typed_text(new_text: Seq<char>, u: UserEdit) -> Seq<char> {
    new_text.subrange(u.new_start as int, u.new_end as int)
}

/// The predicted edits `preds` (old offsets) carried over the user's edits `users`, where
/// `delta` is how far the text after the previous user edit has moved. A predicted edit
/// that ends before the next user edit moves with the text; one with the same range as
/// that user edit survives when the user typed the beginning of its replacement, as an
/// insertion of the rest after what was typed; any other user edit invalidates the lot.
pub open spec fn rebase(
    new_text: Seq<char>,
    users: Seq<UserEdit>,
    preds: Seq<EditSpec>,
    delta: int,
) -> Option<Seq<EditSpec>>
    decreases users.len() + preds.len(),
{
    if users.len() == 0 {
        Some(preds.map_values(|e: EditSpec| shifted(e, delta)))
    } else if preds.len() > 0 && preds[0].end < users[0].old_start {
        prepend(seq![shifted(preds[0], delta)], rebase(new_text, users, preds.drop_first(), delta))
    } else if preds.len() > 0 && preds[0].start == users[0].old_start && preds[0].end
        == users[0].old_end && typed_text(new_text, users[0]).is_prefix_of(preds[0].text) {
        let u = users[0];
        let typed = typed_text(new_text, u);
        let suffix = preds[0].text.skip(typed.len() as int);
        let rest = rebase(
            new_text,
            users.drop_first(),
            preds.drop_first(),
            u.new_end - u.old_end,
        );
        if suffix.len() > 0 {
            prepend(seq![EditSpec { start: u.new_end as int, end: u.new_end as int, text: suffix }], rest)
        } else {
            rest
        }
    } else {
        None
    }
}

/// The predicted edits as they stand after the user's edits, or `None` when the user's
/// edits conflict with them or nothing is left of them.
pub open spec fn interpolated(
    new_text: Seq<char>,
    users: Seq<UserEdit>,
    preds: Seq<EditSpec>,
) -> Option<Seq<EditSpec>> {
    match rebase(new_text, users, preds, 0) {
        Some(r) => if r.len() == 0 {
            None
        } else {
            Some(r)
        },
        None => None,
    }
}

/// Whether the typed text `new_text[u.new_start..u.new_end]` begins `text`.
fn typed_is_prefix(new_text: &Vec<char>, u: &UserEdit, text: &Vec<char>) -> (r: bool)
    requires
        u.new_start <= u.new_end <= new_text.len(),
    ensures
        r == typed_text(new_text@, *u).is_prefix_of(text@),
{
    let n = u.new_end - u.new_start;
    if n > text.len() {
        return false;
    }
    let mut i: usize = 0;
    while i < n
        invariant
            n == u.new_end - u.new_start,
            u.new_start <= u.new_end <= new_text.len(),
            n <= text.len(),
            i <= n,
            forall|k: int| 0 <= k < i ==> new_text@[u.new_start + k] == text@[k],
        decreases n - i,
    {
        if new_text[u.new_start + i] != text[i] {
            assert(typed_text(new_text@, *u)[i as int] != text@[i as int]);
            return false;
        }
        i = i + 1;
    }
    assert(typed_text(new_text@, *u) =~= text@.subrange(0, n as int));
    true
}

/// The characters of `text` from `from` on.
fn tail_of(text: &Vec<char>, from: usize) -> (r: Vec<char>)
    requires
        from <= text.len(),
    ensures
        r@ == text@.skip(from as int),
{
    let mut r: Vec<char> = Vec::new();
    let mut i: usize = from;
    while i < text.len()
        invariant
            from <= i <= text.len(),
            r@ == text@.subrange(from as int, i as int),
        decreases text.len() - i,
    {
        r.push(text[i]);
        i = i + 1;
    }
    assert(r@ =~= text@.skip(from as int));
    r
}

proof fn lemma_push_wf(s: Seq<EditSpec>, e: EditSpec, len: int, front: int)
    requires
        edits_wf(s, len),
        forall|k: int| 0 <= k < s.len() ==> #[trigger] s[k].end <= front,
        front <= e.start <= e.end <= len,
        0 <= e.start,
    ensures
        edits_wf(s.push(e), len),
        forall|k: int| 0 <= k < s.push(e).len() ==> #[trigger] s.push(e)[k].end <= e.end,
{
    let t = s.push(e);
    assert forall|j: int| 0 <= j < t.len() implies 0 <= #[trigger] t[j].start <= t[j].end <= len by {
        if j < s.len() {
            assert(t[j] == s[j]);
        }
    }
    assert forall|a: int, b: int| 0 <= a < b < t.len() implies #[trigger] t[a].end
        <= #[trigger] t[b].start by {
        assert(t[a] == s[a]);
        if b < s.len() {
            assert(t[b] == s[b]);
        } else {
            assert(s[a].end <= front);
        }
    }
    assert forall|k: int| 0 <= k < t.len() implies #[trigger] t[k].end <= e.end by {
        if k < s.len() {
            assert(t[k] == s[k]);
            assert(s[k].end <= front);
            assert(s[k].start <= s[k].end);
        }
    }
}

proof fn lemma_prepend_empty(rest: Option<Seq<EditSpec>>)
    ensures
        prepend(seq![], rest) == rest,
{
    if let Some(r) = rest {
        assert(seq![] + r =~= r);
    }
}

proof fn lemma_prepend_assoc(a: Seq<EditSpec>, b: Seq<EditSpec>, rest: Option<Seq<EditSpec>>)
    ensures
        prepend(a, prepend(b, rest)) == prepend(a + b, rest),
{
    if let Some(r) = rest {
        assert(a + (b + r) =~= (a + b) + r);
    }
}

/// Carries a prediction's edits, given in offsets of the text it was made for, over the
/// user's edits since then; the result is in offsets of `new_text`. Returns `None` when
/// a user edit conflicts with the prediction, or when nothing of it is left.
pub fn interpolate(new_text: &Vec<char>, user_edits: &Vec<UserEdit>, edits: &Vec<Edit>) -> (r:
    Option<Vec<Edit>>)
    requires
        exists|old_len: int|
            user_edits_wf(user_edits@, old_len, new_text.len() as int) && edits_wf(
                edits_view(edits@),
                old_len,
            ),
    ensures
        match r {
            Some(v) => interpolated(new_text@, user_edits@, edits_view(edits@)) == Some(
                edits_view(v@),
            ),
            None => interpolated(new_text@, user_edits@, edits_view(edits@)) is None,
        },
        r matches Some(v) ==> edits_wf(edits_view(v@), new_text.len() as int),
{
    let ghost old_len: int = choose|old_len: int|
        user_edits_wf(user_edits@, old_len, new_text.len() as int) && edits_wf(
            edits_view(edits@),
            old_len,
        );
    let ghost users = user_edits@;
    let ghost preds = edits_view(edits@);
    let mut out: Vec<Edit> = Vec::new();
    let mut i: usize = 0;
    let mut j: usize = 0;
    // Ends of the last user edit handled, in the old and the new text.
    let mut last_old_end: usize = 0;
    let mut last_new_end: usize = 0;
    // Where the last edit put out ends: later ones start no earlier.
    let ghost mut front: int = 0;
    proof {
        assert(users.skip(0) =~= users);
        assert(preds.skip(0) =~= preds);
        assert(edits_view(out@) =~= seq![]);
        if user_edits.len() > 0 {
            assert(users[0].old_start - 0 == users[0].new_start - 0);
        }
        lemma_prepend_empty(rebase(new_text@, users, preds, 0));
    }
    while i < user_edits.len()
        invariant
            i <= user_edits.len(),
            j <= edits.len(),
            users == user_edits@,
            preds == edits_view(edits@),
            user_edits_wf(users, old_len, new_text.len() as int),
            edits_wf(preds, old_len),
            (last_old_end as int, last_new_end as int) == prev_ends(users, i as int),
            j < edits.len() ==> last_old_end <= edits@[j as int].start,
            edits_wf(edits_view(out@), new_text.len() as int),
            forall|k: int| 0 <= k < out@.len() ==> #[trigger] edits_view(out@)[k].end <= front,
            0 <= front,
            j < edits.len() ==> front <= edits@[j as int].start - last_old_end + last_new_end,
            i < user_edits.len() ==> front <= user_edits@[i as int].new_start,
            rebase(new_text@, users, preds, 0) == prepend(
                edits_view(out@),
                rebase(
                    new_text@,
                    users.skip(i as int),
                    preds.skip(j as int),
                    last_new_end - last_old_end,
                ),
            ),
        decreases user_edits.len() - i, edits.len() - j,
    {
        let u = user_edits[i];
        assert(users.skip(i as int)[0] == u);
        let ghost delta: int = last_new_end - last_old_end;
        // Predicted edits that end before the user's edit move with the text.
        while j < edits.len() && edits[j].end < u.old_start
            invariant
                i < user_edits.len(),
                j <= edits.len(),
                u == user_edits@[i as int],
                users == user_edits@,
                preds == edits_view(edits@),
                user_edits_wf(users, old_len, new_text.len() as int),
                edits_wf(preds, old_len),
                (last_old_end as int, last_new_end as int) == prev_ends(users, i as int),
                delta == last_new_end - last_old_end,
                j < edits.len() ==> last_old_end <= edits@[j as int].start,
                edits_wf(edits_view(out@), new_text.len() as int),
                forall|k: int| 0 <= k < out@.len() ==> #[trigger] edits_view(out@)[k].end <= front,
                0 <= front,
                j < edits.len() ==> front <= edits@[j as int].start - last_old_end + last_new_end,
                front <= u.new_start,
                rebase(new_text@, users, preds, 0) == prepend(
                    edits_view(out@),
                    rebase(new_text@, users.skip(i as int), preds.skip(j as int), delta),
                ),
            decreases edits.len() - j,
        {
            let p = &edits[j];
            assert(preds[j as int] == p@);
            assert(users.skip(i as int)[0] == u);
            assert(preds.skip(j as int)[0] == p@);
            assert(preds.skip(j as int).drop_first() =~= preds.skip(j + 1));
            let moved = Edit {
                start: p.start - last_old_end + last_new_end,
                end: p.end - last_old_end + last_new_end,
                text: p.text.clone(),
            };
            assert(moved@ == shifted(p@, delta));
            proof {
                lemma_prepend_assoc(
                    edits_view(out@),
                    seq![moved@],
                    rebase(new_text@, users.skip(i as int), preds.skip(j + 1), delta),
                );
            }
            let ghost prev = out@;
            proof {
                assert(users[i as int].old_start - last_old_end == users[i as int].new_start
                    - last_new_end);
                lemma_push_wf(edits_view(prev), moved@, new_text.len() as int, front);
            }
            out.push(moved);
            assert(edits_view(out@) =~= edits_view(prev) + seq![moved@]);
            assert(edits_view(out@) =~= edits_view(prev).push(moved@));
            proof {
                front = moved.end as int;
            }
            if j + 1 < edits.len() {
                assert(preds[j as int].end <= preds[j + 1].start);
            }
            j = j + 1;
        }
        if j < edits.len() && edits[j].start == u.old_start && edits[j].end == u.old_end {
            let p = &edits[j];
            if typed_is_prefix(new_text, &u, &p.text) {
                let n = u.new_end - u.new_start;
                proof {
                    assert(preds[j as int] == p@);
                    assert(preds.skip(j as int)[0] == p@);
                    assert(preds.skip(j as int).drop_first() =~= preds.skip(j + 1));
                    assert(users.skip(i as int).drop_first() =~= users.skip(i + 1));
                }
                let ghost rest = rebase(
                    new_text@,
                    users.skip(i + 1),
                    preds.skip(j + 1),
                    u.new_end - u.old_end,
                );
                if n < p.text.len() {
                    let e = Edit { start: u.new_end, end: u.new_end, text: tail_of(&p.text, n) };
                    proof {
                        lemma_prepend_assoc(edits_view(out@), seq![e@], rest);
                    }
                    let ghost prev = out@;
                    proof {
                        lemma_push_wf(edits_view(prev), e@, new_text.len() as int, front);
                    }
                    out.push(e);
                    assert(edits_view(out@) =~= edits_view(prev) + seq![e@]);
                    assert(edits_view(out@) =~= edits_view(prev).push(e@));
                }
                proof {
                    front = u.new_end as int;
                    if i + 1 < user_edits.len() {
                        assert(users[i + 1].old_start - users[i as int].old_end == users[i
                            + 1].new_start - users[i as int].new_end);
                    }
                }
                last_old_end = u.old_end;
                last_new_end = u.new_end;
                j = j + 1;
                i = i + 1;
                if j < edits.len() {
                    assert(preds[j - 1].end <= preds[j as int].start);
                }
                continue;
            }
        }
        return None;
    }
    proof {
        assert(users.skip(i as int).len() == 0);
    }
    let ghost delta: int = last_new_end - last_old_end;
    while j < edits.len()
        invariant
            i == user_edits.len(),
            j <= edits.len(),
            users == user_edits@,
            preds == edits_view(edits@),
            user_edits_wf(users, old_len, new_text.len() as int),
            edits_wf(preds, old_len),
            (last_old_end as int, last_new_end as int) == prev_ends(users, i as int),
            delta == last_new_end - last_old_end,
            j < edits.len() ==> last_old_end <= edits@[j as int].start,
            edits_wf(edits_view(out@), new_text.len() as int),
            forall|k: int| 0 <= k < out@.len() ==> #[trigger] edits_view(out@)[k].end <= front,
            0 <= front,
            j < edits.len() ==> front <= edits@[j as int].start - last_old_end + last_new_end,
            rebase(new_text@, users, preds, 0) == Some(
                edits_view(out@) + preds.skip(j as int).map_values(|e: EditSpec| shifted(e, delta)),
            ),
        decreases edits.len() - j,
    {
        let p = &edits[j];
        assert(preds[j as int] == p@);
        assert(preds[j as int].start == p.start);
        assert(preds[j as int].start <= preds[j as int].end <= old_len);
        assert(old_len - last_old_end == new_text.len() - last_new_end);
        let moved = Edit {
            start: p.start - last_old_end + last_new_end,
            end: p.end - last_old_end + last_new_end,
            text: p.text.clone(),
        };
        assert(moved@ == shifted(p@, delta));
        let ghost prev = out@;
        proof {
            lemma_push_wf(edits_view(prev), moved@, new_text.len() as int, front);
        }
        out.push(moved);
        assert(edits_view(out@) =~= edits_view(prev) + seq![moved@]);
        assert(edits_view(out@) =~= edits_view(prev).push(moved@));
        proof {
            front = moved.end as int;
        }
        assert(edits_view(out@) + preds.skip(j + 1).map_values(|e: EditSpec| shifted(e, delta))
            =~= edits_view(prev) + preds.skip(j as int).map_values(
            |e: EditSpec| shifted(e, delta),
        ));
        if j + 1 < edits.len() {
            assert(preds[j as int].end <= preds[j + 1].start);
        }
        j = j + 1;
    }
    assert(preds.skip(j as int).map_values(|e: EditSpec| shifted(e, delta)) =~= seq![]);
    assert(edits_view(out@) + seq![] =~= edits_view(out@));
    if out.len() == 0 {
        None
    } else {
        Some(out)
    }
}

} // verus!

verus! {

/// A prediction interpolated against the very text it was made for, with no user edits
/// in between, comes back unchanged.
pub proof fn lemma_interpolate_identity(text: Seq<char>, preds: Seq<EditSpec>)
    requires
        preds.len() > 0,
    ensures
        interpolated(text, seq![], preds) == Some(preds),
{
    assert(preds.map_values(|e: EditSpec| shifted(e, 0)) =~= preds);
}

/// With no user edits at all, every predicted edit survives, as many as there were and
/// each with its replacement text.
pub proof fn lemma_interpolate_keeps_untouched(text: Seq<char>, preds: Seq<EditSpec>)
    requires
        preds.len() > 0,
    ensures
        interpolated(text, seq![], preds) is Some,
        interpolated(text, seq![], preds)->Some_0.len() == preds.len(),
        forall|j: int|
            0 <= j < preds.len() ==> #[trigger] interpolated(text, seq![], preds)->Some_0[j].text
                == preds[j].text,
{
    lemma_interpolate_identity(text, preds);
}

/// A user edit that lies apart from every predicted range conflicts with the prediction:
/// the prediction is dropped.
pub proof fn lemma_interpolate_disjoint_user_edit(
    text: Seq<char>,
    u: UserEdit,
    preds: Seq<EditSpec>,
)
    requires
        forall|j: int|
            0 <= j < preds.len() ==> !(#[trigger] preds[j].start == u.old_start && preds[j].end
                == u.old_end),
    ensures
        interpolated(text, seq![u], preds) is None,
    decreases preds.len(),
{
    if preds.len() > 0 && preds[0].end < u.old_start {
        assert forall|j: int|
            0 <= j < preds.drop_first().len() implies !(#[trigger] preds.drop_first()[j].start
            == u.old_start && preds.drop_first()[j].end == u.old_end) by {
            assert(preds.drop_first()[j] == preds[j + 1]);
        }
        lemma_interpolate_disjoint_user_edit(text, u, preds.drop_first());
        assert(rebase(text, seq![u], preds.drop_first(), 0) is None);
    } else if preds.len() > 0 {
        assert(!(preds[0].start == u.old_start && preds[0].end == u.old_end));
    }
}

} // verus!
