use vstd::prelude::*;

use crate::text::utf8_len;

verus! {

/// Typical number of text units per token, used to keep model input within limits.
/// Intentionally low, to err on the side of underestimating what fits.
pub const BYTES_PER_TOKEN_GUESS: usize = 3;

/// Estimated number of tokens for a text of `bytes` units.
pub open spec fn token_estimate(bytes: nat) -> nat {
    bytes / (BYTES_PER_TOKEN_GUESS as nat)
}

/// Estimates how many tokens a text of `bytes` units costs.
pub fn tokens_for_bytes(bytes: usize) -> (r: usize)
    ensures
        r == token_estimate(bytes as nat),
{
    bytes / BYTES_PER_TOKEN_GUESS
}

} // verus!

verus! {

/// Token budget of the rendered edit history.
pub const MAX_EVENT_TOKENS: usize = 500;

/// The name given to a buffer that has no file.
pub const UNTITLED: &'static str = "untitled";

pub open spec fn untitled() -> Seq<char> {
    UNTITLED@
}

/// A path, or `untitled` where there is none.
pub open spec fn path_or_untitled(path: Option<Seq<char>>) -> Seq<char> {
    match path {
        Some(p) => p,
        None => untitled(),
    }
}

/// A path as its `Debug` form writes it: between double quotes, with backslashes,
/// quotes and control characters escaped.
pub uninterp spec fn debug_quoted_of(s: Seq<char>) -> Seq<char>;

/// Relies on the `Debug` form of `std::path::Path`: the path quoted and escaped, which
/// depends on the path alone.
#[verifier::external_body]
fn debug_quoted(s: &Vec<char>) -> (r: Vec<char>)
    ensures
        r@ == debug_quoted_of(s@),
{
    let path: String = s.iter().collect();
    format!("{:?}", std::path::Path::new(&path)).chars().collect()
}

/// How one buffer change reads in a prompt, paths written in their `Debug` form: a line
/// on the rename, if the file was
/// renamed, and the unified diff of the change in a `diff` fence, if it changed any text.
pub open spec fn event_prompt(old_path: Seq<char>, new_path: Seq<char>, diff: Seq<char>) -> Seq<
    char,
> {
    let rename = if old_path != new_path {
        "User renamed "@ + debug_quoted_of(old_path) + " to "@ + debug_quoted_of(new_path) + seq!['\n', '\n']
    } else {
        Seq::empty()
    };
    let edit = if diff.len() > 0 {
        "User edited "@ + debug_quoted_of(new_path) + ":\n```diff\n"@ + diff + "\n```"@
    } else {
        Seq::empty()
    };
    rename + edit
}

/// Puts an older event's text in front of what is already there, two line breaks apart.
pub open spec fn prepend_event(p: Seq<char>, acc: Seq<char>) -> Seq<char> {
    if acc.len() == 0 {
        p
    } else {
        p + seq!['\n', '\n'] + acc
    }
}

/// The history text: events are taken newest first while their estimated tokens (from
/// their length in UTF-8 bytes) fit in what is left of the budget, each put in front of
/// the newer ones.
pub open spec fn events_text(prompts: Seq<Seq<char>>, budget: nat, acc: Seq<char>) -> Seq<char>
    decreases prompts.len(),
{
    if prompts.len() == 0 {
        acc
    } else {
        let cost = token_estimate(utf8_len(prompts.last()));
        if cost > budget {
            acc
        } else {
            events_text(prompts.drop_last(), (budget - cost) as nat, prepend_event(prompts.last(), acc))
        }
    }
}

/// The views of a list of texts.
pub open spec fn texts_view(v: Seq<Vec<char>>) -> Seq<Seq<char>> {
    v.map_values(|t: Vec<char>| t@)
}

/// Renders one buffer change, given the paths of its two snapshots and the unified diff
/// of their texts.
pub fn event_to_prompt(old_path: &Option<Vec<char>>, new_path: &Option<Vec<char>>, diff: &Vec<char>) -> (r:
    Vec<char>)
    ensures
        r@ == event_prompt(
            path_or_untitled(crate::buffer::path_view(*old_path)),
            path_or_untitled(crate::buffer::path_view(*new_path)),
            diff@,
        ),
{
    let old_p = match old_path {
        Some(p) => p.clone(),
        None => crate::text::chars_of(UNTITLED),
    };
    let new_p = match new_path {
        Some(p) => p.clone(),
        None => crate::text::chars_of(UNTITLED),
    };
    let mut r: Vec<char> = Vec::new();
    let renamed = !same_text(&old_p, &new_p);
    if renamed {
        crate::text::push_all(&mut r, &crate::text::chars_of("User renamed "));
        crate::text::push_all(&mut r, &debug_quoted(&old_p));
        crate::text::push_all(&mut r, &crate::text::chars_of(" to "));
        crate::text::push_all(&mut r, &debug_quoted(&new_p));
        r.push('\n');
        r.push('\n');
    }
    let ghost rename = r@;
    if diff.len() > 0 {
        crate::text::push_all(&mut r, &crate::text::chars_of("User edited "));
        crate::text::push_all(&mut r, &debug_quoted(&new_p));
        crate::text::push_all(&mut r, &crate::text::chars_of(":\n```diff\n"));
        crate::text::push_all(&mut r, diff);
        crate::text::push_all(&mut r, &crate::text::chars_of("\n```"));
    }
    proof {
        let op = path_or_untitled(crate::buffer::path_view(*old_path));
        let np = path_or_untitled(crate::buffer::path_view(*new_path));
        if renamed {
            assert(rename =~= "User renamed "@ + debug_quoted_of(op) + " to "@ + debug_quoted_of(np) + seq!['\n', '\n']);
        } else {
            assert(rename =~= Seq::<char>::empty());
        }
        if diff.len() > 0 {
            assert(r@ =~= rename + ("User edited "@ + debug_quoted_of(np) + ":\n```diff\n"@ + diff@ + "\n```"@));
        } else {
            assert(r@ =~= rename + Seq::<char>::empty());
        }
    }
    r
}

/// Whether `a` and `b` hold the same characters.
pub fn same_text(a: &Vec<char>, b: &Vec<char>) -> (r: bool)
    ensures
        r == (a@ == b@),
{
    if a.len() != b.len() {
        return false;
    }
    let mut i: usize = 0;
    while i < a.len()
        invariant
            i <= a.len(),
            a.len() == b.len(),
            forall|k: int| 0 <= k < i ==> a@[k] == b@[k],
        decreases a.len() - i,
    {
        if a[i] != b[i] {
            return false;
        }
        i = i + 1;
    }
    assert(a@ =~= b@);
    true
}

/// Renders the edit history, newest events first to claim the budget, oldest first in
/// the text.
pub fn prompt_for_events(event_prompts: &Vec<Vec<char>>, remaining_tokens: usize) -> (r: Vec<char>)
    requires
        forall|i: int|
            0 <= i < event_prompts@.len() ==> crate::text::fits_in_memory(#[trigger] event_prompts@[i]@),
    ensures
        r@ == events_text(texts_view(event_prompts@), remaining_tokens as nat, Seq::empty()),
{
    let ghost all = texts_view(event_prompts@);
    let mut result: Vec<char> = Vec::new();
    let mut remaining = remaining_tokens;
    let mut i: usize = event_prompts.len();
    assert(all.take(i as int) =~= all);
    while i > 0
        invariant
            i <= event_prompts.len(),
            all == texts_view(event_prompts@),
            forall|k: int|
                0 <= k < event_prompts@.len() ==> crate::text::fits_in_memory(#[trigger] event_prompts@[k]@),
            events_text(all, remaining_tokens as nat, Seq::empty()) == events_text(
                all.take(i as int),
                remaining as nat,
                result@,
            ),
        decreases i,
    {
        let event = &event_prompts[i - 1];
        assert(crate::text::fits_in_memory(event_prompts@[i - 1]@));
        let cost = tokens_for_bytes(crate::text::utf8_len_of(event, 0, event.len()));
        assert(event@.subrange(0, event@.len() as int) =~= event@);
        assert(all.take(i as int).last() == event@);
        assert(all.take(i as int).drop_last() =~= all.take(i - 1));
        if cost > remaining {
            assert(events_text(all.take(i as int), remaining as nat, result@) == result@);
            return result;
        }
        let mut next: Vec<char> = event.clone();
        if result.len() > 0 {
            next.push('\n');
            next.push('\n');
        }
        crate::text::push_all(&mut next, &result);
        assert(next@ =~= prepend_event(event@, result@));
        result = next;
        remaining = remaining - cost;
        i = i - 1;
    }
    assert(all.take(0) =~= Seq::<Seq<char>>::empty());
    result
}

/// One entry of a buffer's outline, at nesting depth `depth`.
#[derive(Debug)]
pub struct OutlineItem {
    pub depth: usize,
    pub text: Vec<char>,
}

/// The outline lines: each item's text, indented by a space per level of depth.
pub open spec fn outline_lines(items: Seq<OutlineItem>) -> Seq<char>
    decreases items.len(),
{
    if items.len() == 0 {
        Seq::empty()
    } else {
        outline_lines(items.drop_last()) + Seq::new(items.last().depth as nat, |i: int| ' ')
            + items.last().text@ + seq!['\n']
    }
}

/// The outline of a buffer in a fence named by its path; just the fence where there is
/// no outline.
pub open spec fn outline_prompt(path: Seq<char>, items: Option<Seq<OutlineItem>>) -> Seq<char> {
    let fence = seq!['`', '`', '`'];
    fence + path + seq!['\n'] + match items {
        Some(v) => outline_lines(v),
        None => Seq::empty(),
    } + fence + seq!['\n']
}

/// Renders a buffer's outline for the prompt.
pub fn prompt_for_outline(path: &Option<Vec<char>>, outline: &Option<Vec<OutlineItem>>) -> (r: Vec<
    char,
>)
    ensures
        r@ == outline_prompt(
            path_or_untitled(crate::buffer::path_view(*path)),
            match outline {
                Some(v) => Some(v@),
                None => None,
            },
        ),
{
    let mut r: Vec<char> = vec!['`', '`', '`'];
    match path {
        Some(p) => crate::text::push_all(&mut r, p),
        None => crate::text::push_all(&mut r, &crate::text::chars_of(UNTITLED)),
    }
    r.push('\n');
    let ghost head = r@;
    if let Some(items) = outline {
        let mut k: usize = 0;
        while k < items.len()
            invariant
                k <= items.len(),
                r@ == head + outline_lines(items@.take(k as int)),
            decreases items.len() - k,
        {
            let item = &items[k];
            let ghost before = r@;
            let mut d: usize = 0;
            while d < item.depth
                invariant
                    d <= item.depth,
                    r@ == before + Seq::new(d as nat, |i: int| ' '),
                decreases item.depth - d,
            {
                r.push(' ');
                d = d + 1;
                assert(r@ =~= before + Seq::new(d as nat, |i: int| ' '));
            }
            crate::text::push_all(&mut r, &item.text);
            r.push('\n');
            assert(items@.take(k + 1).drop_last() =~= items@.take(k as int));
            assert(r@ =~= head + outline_lines(items@.take(k + 1)));
            k = k + 1;
        }
        assert(items@.take(k as int) =~= items@);
    }
    let ghost body = r@;
    r.push('`');
    r.push('`');
    r.push('`');
    r.push('\n');
    proof {
        let p = path_or_untitled(crate::buffer::path_view(*path));
        match outline {
            Some(v) => {
                assert(r@ =~= seq!['`', '`', '`'] + p + seq!['\n'] + outline_lines(v@) + seq!['`', '`', '`'] + seq!['\n']);
            },
            None => {
                assert(r@ =~= seq!['`', '`', '`'] + p + seq!['\n'] + Seq::<char>::empty() + seq!['`', '`', '`'] + seq!['\n']);
            },
        }
    }
    r
}

} // verus!
