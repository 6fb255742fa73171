use vstd::prelude::*;

use crate::prompt::{token_estimate, tokens_for_bytes};
use crate::text::{
    CURSOR_MARKER, EDITABLE_REGION_END_MARKER, EDITABLE_REGION_START_MARKER,
    START_OF_FILE_MARKER, chars_of, cursor_marker, fits_in_memory, utf8_len, utf8_len_of, push_all, push_range, region_end_marker,
    region_start_marker, start_of_file_marker,
};

verus! {

/// Token budget of the editable region.
pub const MAX_REWRITE_TOKENS: usize = 350;

/// Token budget of the context shown before the editable region.
pub const MAX_CONTEXT_TOKENS: usize = 150;

/// The start of the line that holds position `p`.
pub open spec fn line_start(t: Seq<char>, p: int) -> int
    decreases p,
{
    if p <= 0 {
        0
    } else if t[p - 1] == '\n' {
        p
    } else {
        line_start(t, p - 1)
    }
}

/// The end of the line that holds position `p` (its line break, or the end of the text).
pub open spec fn line_end(t: Seq<char>, p: int) -> int
    decreases t.len() - p,
{
    if p >= t.len() {
        t.len() as int
    } else if t[p] == '\n' {
        p
    } else {
        line_end(t, p + 1)
    }
}

/// `a - b`, or 0 where `b` is larger.
pub open spec fn sat_sub(a: nat, b: nat) -> nat {
    if a >= b {
        (a - b) as nat
    } else {
        0
    }
}

/// The window `start..end` grown by whole lines, one above and one below in each round,
/// while budget remains and the text goes on; each line added costs the tokens estimated
/// from its length in UTF-8 bytes.
pub open spec fn grown(t: Seq<char>, start: int, end: int, budget: nat) -> (int, int)
    decreases start + t.len() - end,
{
    let up = budget > 0 && start > 0;
    let s1 = if up {
        line_start(t, start - 1)
    } else {
        start
    };
    let b1 = if up {
        sat_sub(budget, token_estimate(utf8_len(t.subrange(s1, start - 1))))
    } else {
        budget
    };
    let down = b1 > 0 && end < t.len();
    let e1 = if down {
        line_end(t, end + 1)
    } else {
        end
    };
    let b2 = if down {
        sat_sub(b1, token_estimate(utf8_len(t.subrange(end + 1, e1))))
    } else {
        b1
    };
    if !up && !down {
        (start, end)
    } else if 0 <= s1 <= start && end <= e1 <= t.len() && (s1 < start || end < e1) {
        grown(t, s1, e1, b2)
    } else {
        (start, end)
    }
}

/// The start `start` moved up by whole lines while budget remains.
pub open spec fn grown_up(t: Seq<char>, start: int, budget: nat) -> int
    decreases start,
{
    if budget > 0 && start > 0 {
        let s1 = line_start(t, start - 1);
        if 0 <= s1 < start {
            grown_up(t, s1, sat_sub(budget, token_estimate(utf8_len(t.subrange(s1, start - 1)))))
        } else {
            start
        }
    } else {
        start
    }
}

/// The editable region around `cursor`: its line, grown within the rewrite budget.
pub open spec fn editable_window(t: Seq<char>, cursor: int) -> (int, int) {
    grown(t, line_start(t, cursor), line_end(t, cursor), MAX_REWRITE_TOKENS as nat)
}

/// The region as the model should echo it back if it predicts no change.
pub open spec fn region_block(region: Seq<char>) -> Seq<char> {
    region_start_marker() + seq!['\n'] + region + seq!['\n'] + region_end_marker()
}

/// The prompt for the window: the path fence, the start-of-file marker where the editable
/// region starts the file, the context, the region with the cursor marked, and the closing fence.
pub open spec fn excerpt_prompt(
    t: Seq<char>,
    path: Seq<char>,
    cursor: int,
    context_start: int,
    start: int,
    end: int,
) -> Seq<char> {
    let fence = seq!['`', '`', '`'];
    fence + path + seq!['\n'] + (if start == 0 {
        start_of_file_marker() + seq!['\n']
    } else {
        Seq::empty()
    }) + t.subrange(context_start, start) + region_start_marker() + seq!['\n'] + t.subrange(
        start,
        cursor,
    ) + cursor_marker() + t.subrange(cursor, end) + seq!['\n'] + region_end_marker() + seq![
        '\n',
    ] + fence
}

/// What the prompt builder takes from the buffer around the cursor.
#[derive(Debug)]
pub struct InputExcerpt {
    pub prompt: Vec<char>,
    pub speculated_output: Vec<char>,
    pub editable_start: usize,
    pub editable_end: usize,
}

fn line_start_of(t: &Vec<char>, p: usize) -> (r: usize)
    requires
        p <= t.len(),
    ensures
        r == line_start(t@, p as int),
        r <= p,
{
    let mut i: usize = p;
    while i > 0 && t[i - 1] != '\n'
        invariant
            i <= p <= t.len(),
            line_start(t@, i as int) == line_start(t@, p as int),
        decreases i,
    {
        i = i - 1;
    }
    i
}

fn line_end_of(t: &Vec<char>, p: usize) -> (r: usize)
    requires
        p <= t.len(),
    ensures
        r == line_end(t@, p as int),
        p <= r <= t.len(),
{
    let mut i: usize = p;
    while i < t.len() && t[i] != '\n'
        invariant
            p <= i <= t.len(),
            line_end(t@, i as int) == line_end(t@, p as int),
        decreases t.len() - i,
    {
        i = i + 1;
    }
    i
}

fn grow(t: &Vec<char>, start: usize, end: usize, budget: usize) -> (r: (usize, usize))
    requires
        start <= end <= t.len(),
        fits_in_memory(t@),
    ensures
        (r.0 as int, r.1 as int) == grown(t@, start as int, end as int, budget as nat),
        r.0 <= start,
        end <= r.1 <= t.len(),
{
    let mut s = start;
    let mut e = end;
    let mut b = budget;
    loop
        invariant
            fits_in_memory(t@),
            s <= start,
            end <= e <= t.len(),
            s <= e,
            grown(t@, s as int, e as int, b as nat) == grown(t@, start as int, end as int, budget as nat),
        decreases s + t.len() - e,
    {
        let up = b > 0 && s > 0;
        let mut s1 = s;
        let mut b1 = b;
        if up {
            s1 = line_start_of(t, s - 1);
            let cost = tokens_for_bytes(utf8_len_of(t, s1, s - 1));
            b1 = b - if cost <= b { cost } else { b };
        }
        let down = b1 > 0 && e < t.len();
        let mut e1 = e;
        let mut b2 = b1;
        if down {
            e1 = line_end_of(t, e + 1);
            let cost = tokens_for_bytes(utf8_len_of(t, e + 1, e1));
            b2 = b1 - if cost <= b1 { cost } else { b1 };
        }
        if !up && !down {
            return (s, e);
        }
        s = s1;
        e = e1;
        b = b2;
    }
}

fn grow_up(t: &Vec<char>, start: usize, budget: usize) -> (r: usize)
    requires
        start <= t.len(),
        fits_in_memory(t@),
    ensures
        r == grown_up(t@, start as int, budget as nat),
        r <= start,
{
    let mut s = start;
    let mut b = budget;
    while b > 0 && s > 0
        invariant
            fits_in_memory(t@),
            s <= start <= t.len(),
            grown_up(t@, s as int, b as nat) == grown_up(t@, start as int, budget as nat),
        decreases s,
    {
        let s1 = line_start_of(t, s - 1);
        let cost = tokens_for_bytes(utf8_len_of(t, s1, s - 1));
        b = b - if cost <= b { cost } else { b };
        s = s1;
    }
    s
}

/// Chooses the editable region around `cursor` and the context before it, and writes the
/// prompt and the reply that would mean "no change".
pub fn excerpt_for_cursor_position(
    cursor: usize,
    path: &Vec<char>,
    text: &Vec<char>,
    max_rewrite_tokens: usize,
    max_context_tokens: usize,
) -> (r: InputExcerpt)
    requires
        cursor <= text.len(),
        fits_in_memory(text@),
    ensures
        (r.editable_start as int, r.editable_end as int) == grown(
            text@,
            line_start(text@, cursor as int),
            line_end(text@, cursor as int),
            max_rewrite_tokens as nat,
        ),
        r.editable_start <= cursor <= r.editable_end <= text.len(),
        r.speculated_output@ == region_block(
            text@.subrange(r.editable_start as int, r.editable_end as int),
        ),
        r.prompt@ == excerpt_prompt(
            text@,
            path@,
            cursor as int,
            grown_up(text@, r.editable_start as int, max_context_tokens as nat),
            r.editable_start as int,
            r.editable_end as int,
        ),
{
    let ls = line_start_of(text, cursor);
    let le = line_end_of(text, cursor);
    let (start, end) = grow(text, ls, le, max_rewrite_tokens);
    let context_start = grow_up(text, start, max_context_tokens);
    let start_marker = chars_of(EDITABLE_REGION_START_MARKER);
    let end_marker = chars_of(EDITABLE_REGION_END_MARKER);

    let mut prompt: Vec<char> = vec!['`', '`', '`'];
    push_all(&mut prompt, path);
    prompt.push('\n');
    if start == 0 {
        push_all(&mut prompt, &chars_of(START_OF_FILE_MARKER));
        prompt.push('\n');
    }
    push_range(&mut prompt, text, context_start, start);
    push_all(&mut prompt, &start_marker);
    prompt.push('\n');
    push_range(&mut prompt, text, start, cursor);
    push_all(&mut prompt, &chars_of(CURSOR_MARKER));
    push_range(&mut prompt, text, cursor, end);
    prompt.push('\n');
    push_all(&mut prompt, &end_marker);
    prompt.push('\n');
    push_all(&mut prompt, &vec!['`', '`', '`']);

    let mut speculated_output: Vec<char> = Vec::new();
    push_all(&mut speculated_output, &start_marker);
    speculated_output.push('\n');
    push_range(&mut speculated_output, text, start, end);
    speculated_output.push('\n');
    push_all(&mut speculated_output, &end_marker);

    proof {
        let fence = seq!['`', '`', '`'];
        assert(speculated_output@ =~= region_block(text@.subrange(start as int, end as int)));
        if start == 0 {
            assert(prompt@ =~= excerpt_prompt(
                text@,
                path@,
                cursor as int,
                context_start as int,
                start as int,
                end as int,
            ));
        } else {
            assert(prompt@ =~= excerpt_prompt(
                text@,
                path@,
                cursor as int,
                context_start as int,
                start as int,
                end as int,
            ));
        }
    }
    InputExcerpt { prompt, speculated_output, editable_start: start, editable_end: end }
}

} // verus!
