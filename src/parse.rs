use vstd::prelude::*;

use crate::edit::{Edit, EditSpec, edits_view};
use crate::excerpt::region_block;
use crate::text::{
    CURSOR_MARKER, EDITABLE_REGION_END_MARKER, EDITABLE_REGION_START_MARKER,
    START_OF_FILE_MARKER, chars_of, count_from, count_matches, cursor_marker, find_from,
    first_from, last_occurrence, last_upto, occurs_at, region_end_marker, region_start_marker, rfind,
    start_of_file_marker, strip_from, strip_matches,
};

verus! {

/// Why a model reply could not be read.
#[derive(Clone, Copy, Debug, PartialEq, Eq, Structural)]
pub enum ParseError {
    /// The reply does not hold exactly one region start, exactly one region end, and at
    /// most one start-of-file marker.
    MarkerCount,
    /// No line break follows the region start marker.
    MissingNewline,
    /// No line break directly precedes the region end marker.
    MissingEnd,
}

/// The newline that precedes the closing marker of the editable region.
pub open spec fn region_close() -> Seq<char> {
    seq!['\n'] + region_end_marker()
}

/// The rewritten editable region that a model reply holds: cursor markers are dropped,
/// the region starts on the line after its start marker and ends before the line break
/// that precedes the last end marker.
pub open spec fn parsed_region(output: Seq<char>) -> Result<Seq<char>, ParseError> {
    let content = strip_from(output, cursor_marker(), 0);
    if count_from(content, region_start_marker(), 0) != 1 || count_from(
        content,
        region_end_marker(),
        0,
    ) != 1 || count_from(content, start_of_file_marker(), 0) > 1 {
        Err(ParseError::MarkerCount)
    } else {
        match first_from(content, region_start_marker(), 0) {
            None => Err(ParseError::MarkerCount),
            Some(p) => {
                let rest = content.skip(p);
                match first_from(rest, seq!['\n'], 0) {
                    None => Err(ParseError::MissingNewline),
                    Some(nl) => {
                        let body = rest.skip(nl + 1);
                        match last_occurrence(body, region_close()) {
                            None => Err(ParseError::MissingEnd),
                            Some(q) => Ok(body.take(q)),
                        }
                    },
                }
            },
        }
    }
}

/// `s` from position `from` on.
fn skip_chars(s: &Vec<char>, from: usize) -> (r: Vec<char>)
    requires
        from <= s.len(),
    ensures
        r@ == s@.skip(from as int),
{
    let mut r: Vec<char> = Vec::new();
    crate::text::push_range(&mut r, s, from, s.len());
    assert(r@ =~= s@.skip(from as int));
    r
}

/// Reads the rewritten editable region out of a model reply.
pub fn parse_region(output_excerpt: &Vec<char>) -> (r: Result<Vec<char>, ParseError>)
    ensures
        match r {
            Ok(v) => parsed_region(output_excerpt@) == Ok::<Seq<char>, ParseError>(v@),
            Err(e) => parsed_region(output_excerpt@) == Err::<Seq<char>, ParseError>(e),
        },
{
    let cursor = chars_of(CURSOR_MARKER);
    let start = chars_of(EDITABLE_REGION_START_MARKER);
    let end = chars_of(EDITABLE_REGION_END_MARKER);
    let sof = chars_of(START_OF_FILE_MARKER);
    let content = strip_matches(output_excerpt, &cursor);
    if count_matches(&content, &start) != 1 || count_matches(&content, &end) != 1
        || count_matches(&content, &sof) > 1 {
        return Err(ParseError::MarkerCount);
    }
    let p = match find_from(&content, &start, 0) {
        Some(p) => p,
        None => {
            return Err(ParseError::MarkerCount);
        },
    };
    proof {
        crate::text::lemma_first_from_bounds(content@, start@, 0);
    }
    let rest = skip_chars(&content, p);
    let newline = vec!['\n'];
    assert(newline@ =~= seq!['\n']);
    proof {
        crate::text::lemma_first_from_bounds(rest@, newline@, 0);
    }
    let nl = match find_from(&rest, &newline, 0) {
        Some(nl) => nl,
        None => {
            return Err(ParseError::MissingNewline);
        },
    };
    assert(crate::text::occurs_at(rest@, newline@, nl as int));
    assert(newline@.len() == 1);
    assert(nl + 1 <= rest@.len());
    assert(nl < rest.len());
    let body = skip_chars(&rest, nl + 1);
    let mut close = vec!['\n'];
    crate::text::push_all(&mut close, &end);
    assert(close@ =~= region_close());
    proof {
        crate::text::lemma_last_upto_bounds(body@, close@, body@.len() - close@.len());
    }
    match rfind(&body, &close) {
        Some(q) => {
            let mut region: Vec<char> = Vec::new();
            crate::text::push_range(&mut region, &body, 0, q);
            assert(region@ =~= body@.take(q as int));
            Ok(region)
        },
        None => Err(ParseError::MissingEnd),
    }
}

} // verus!

verus! {

/// The length of the longest common prefix of `a` and `b`.
pub open spec fn common_prefix_len(a: Seq<char>, b: Seq<char>) -> nat
    decreases a.len(),
{
    if a.len() == 0 || b.len() == 0 || a[0] != b[0] {
        0
    } else {
        1 + common_prefix_len(a.drop_first(), b.drop_first())
    }
}

/// `s` read backwards.
pub open spec fn reversed(s: Seq<char>) -> Seq<char> {
    Seq::new(s.len(), |i: int| s[s.len() - 1 - i])
}

/// The length of the longest common suffix of `a` and `b`.
pub open spec fn common_suffix_len(a: Seq<char>, b: Seq<char>) -> nat {
    common_prefix_len(reversed(a), reversed(b))
}

proof fn lemma_common_prefix_step(a: Seq<char>, b: Seq<char>, i: int)
    requires
        0 <= i < a.len(),
        i < b.len(),
        a[i] == b[i],
    ensures
        common_prefix_len(a.skip(i), b.skip(i)) == 1 + common_prefix_len(
            a.skip(i + 1),
            b.skip(i + 1),
        ),
{
    assert(a.skip(i).drop_first() =~= a.skip(i + 1));
    assert(b.skip(i).drop_first() =~= b.skip(i + 1));
}

proof fn lemma_common_prefix_bound(a: Seq<char>, b: Seq<char>)
    ensures
        common_prefix_len(a, b) <= a.len(),
        common_prefix_len(a, b) <= b.len(),
        a.take(common_prefix_len(a, b) as int) == b.take(common_prefix_len(a, b) as int),
    decreases a.len(),
{
    if !(a.len() == 0 || b.len() == 0 || a[0] != b[0]) {
        lemma_common_prefix_bound(a.drop_first(), b.drop_first());
        let n = common_prefix_len(a, b) as int;
        assert(a.take(n) =~= seq![a[0]] + a.drop_first().take(n - 1));
        assert(b.take(n) =~= seq![b[0]] + b.drop_first().take(n - 1));
    } else {
        assert(a.take(0) =~= b.take(0));
    }
}

/// How many characters `a` and `b` have in common at their start.
fn shared_prefix_len(a: &Vec<char>, b: &Vec<char>) -> (r: usize)
    ensures
        r == common_prefix_len(a@, b@),
{
    let mut i: usize = 0;
    proof {
        assert(a@.skip(0) =~= a@);
        assert(b@.skip(0) =~= b@);
    }
    while i < a.len() && i < b.len() && a[i] == b[i]
        invariant
            i <= a.len(),
            i <= b.len(),
            common_prefix_len(a@, b@) == i + common_prefix_len(a@.skip(i as int), b@.skip(i as int)),
        decreases a.len() - i,
    {
        proof {
            lemma_common_prefix_step(a@, b@, i as int);
        }
        i = i + 1;
    }
    i
}

/// How many UTF-8 bytes the characters that `a` and `b` have in common at their start
/// take.
pub fn common_prefix(a: &Vec<char>, b: &Vec<char>) -> (r: usize)
    requires
        crate::text::fits_in_memory(a@),
    ensures
        r == crate::text::utf8_len(a@.take(common_prefix_len(a@, b@) as int)),
{
    let n = shared_prefix_len(a, b);
    proof {
        lemma_common_prefix_bound(a@, b@);
    }
    assert(a@.subrange(0, n as int) =~= a@.take(n as int));
    crate::text::utf8_len_of(a, 0, n)
}

/// `text[from..to]`, read backwards.
fn reversed_range(text: &Vec<char>, from: usize, to: usize) -> (r: Vec<char>)
    requires
        from <= to <= text.len(),
    ensures
        r@ == reversed(text@.subrange(from as int, to as int)),
{
    let mut r: Vec<char> = Vec::new();
    let mut k: usize = to;
    while k > from
        invariant
            from <= k <= to <= text.len(),
            r@ == reversed(text@.subrange(k as int, to as int)),
        decreases k,
    {
        k = k - 1;
        r.push(text[k]);
        assert(r@ =~= reversed(text@.subrange(k as int, to as int)));
    }
    r
}

/// A hunk of a diff of the editable region, moved to buffer offsets and trimmed of the
/// characters that its replacement shares with the buffer at its start and at its end.
pub open spec fn tightened(text: Seq<char>, h: EditSpec, offset: int) -> EditSpec {
    let start = h.start + offset;
    let end = h.end + offset;
    let p = common_prefix_len(text.subrange(start, end), h.text);
    let rest = h.text.skip(p as int);
    let q = common_suffix_len(text.subrange(start + p, end), rest);
    EditSpec { start: start + p, end: end - q, text: rest.take(rest.len() - q) }
}

/// Hunks that lie within a region of `text` that starts at `offset`.
pub open spec fn hunks_fit(hunks: Seq<EditSpec>, offset: int, len: int) -> bool {
    forall|k: int|
        0 <= k < hunks.len() ==> 0 <= #[trigger] hunks[k].start <= hunks[k].end && hunks[k].end
            + offset <= len
}

impl crate::engine::Zeta {
    /// Turns the hunks of a diff between the editable region of `text` (which starts at
    /// `offset`) and its rewritten form into buffer edits, each as small as it can be.
    pub fn compute_edits(hunks: &Vec<Edit>, offset: usize, text: &Vec<char>) -> (r: Vec<Edit>)
        requires
            hunks_fit(edits_view(hunks@), offset as int, text.len() as int),
        ensures
            edits_view(r@) == edits_view(hunks@).map_values(
                |h: EditSpec| tightened(text@, h, offset as int),
            ),
    {
        let ghost target = edits_view(hunks@).map_values(
            |h: EditSpec| tightened(text@, h, offset as int),
        );
        let mut r: Vec<Edit> = Vec::new();
        let mut k: usize = 0;
        while k < hunks.len()
            invariant
                k <= hunks.len(),
                hunks_fit(edits_view(hunks@), offset as int, text.len() as int),
                target == edits_view(hunks@).map_values(
                    |h: EditSpec| tightened(text@, h, offset as int),
                ),
                edits_view(r@) == target.take(k as int),
            decreases hunks.len() - k,
        {
            let h = &hunks[k];
            assert(edits_view(hunks@)[k as int] == h@);
            assert(edits_view(hunks@)[k as int].start <= edits_view(hunks@)[k as int].end);
            let start = h.start + offset;
            let end = h.end + offset;
            let mut old_part: Vec<char> = Vec::new();
            crate::text::push_range(&mut old_part, text, start, end);
            let p = shared_prefix_len(&old_part, &h.text);
            proof {
                lemma_common_prefix_bound(old_part@, h.text@);
            }
            let rest_old = reversed_range(text, start + p, end);
            let rest_new = reversed_range(&h.text, p, h.text.len());
            let q = shared_prefix_len(&rest_old, &rest_new);
            proof {
                lemma_common_prefix_bound(rest_old@, rest_new@);
                assert(h.text@.subrange(p as int, h.text.len() as int) =~= h.text@.skip(p as int));
            }
            let mut replacement: Vec<char> = Vec::new();
            crate::text::push_range(&mut replacement, &h.text, p, h.text.len() - q);
            let e = Edit { start: start + p, end: end - q, text: replacement };
            assert(e@.text =~= h.text@.skip(p as int).take(h.text.len() - p - q));
            assert(e@ == tightened(text@, h@, offset as int));
            let ghost before = r@;
            r.push(e);
            assert(edits_view(r@) =~= target.take(k + 1)) by {
                assert(edits_view(r@) =~= edits_view(before).push(e@));
            }
            k = k + 1;
        }
        assert(target.take(k as int) =~= target);
        r
    }
}

} // verus!

verus! {

/// A reply that echoes the speculated output, the editable region between its markers,
/// reads back as exactly that region, so that it differs from the buffer nowhere. This
/// holds unless the region itself holds a cursor, region start or region end marker, or
/// more than one start-of-file marker.
pub proof fn lemma_echo_reads_back(region: Seq<char>)
    requires
        count_from(region, cursor_marker(), 0) == 0,
        count_from(region, region_start_marker(), 0) == 0,
        count_from(region, region_end_marker(), 0) == 0,
        count_from(region, start_of_file_marker(), 0) <= 1,
    ensures
        parsed_region(region_block(region)) == Ok::<Seq<char>, ParseError>(region),
{
    crate::text::lemma_marker_facts();
    let s = region_start_marker();
    let e = region_end_marker();
    let nl = seq!['\n'];
    let out = region_block(region);
    let tail = region + nl + e;
    assert(out =~= s + nl + tail);
    crate::text::lemma_count_split(s, tail, cursor_marker());
    crate::text::lemma_count_split(region, e, cursor_marker());
    crate::text::lemma_count_split(s, tail, s);
    crate::text::lemma_count_split(region, e, s);
    crate::text::lemma_count_split(s, tail, e);
    crate::text::lemma_count_split(region, e, e);
    crate::text::lemma_count_split(s, tail, start_of_file_marker());
    crate::text::lemma_count_split(region, e, start_of_file_marker());
    crate::text::lemma_strip_nothing(out, cursor_marker(), 0);
    assert(out.skip(0) =~= out);
    let content = strip_from(out, cursor_marker(), 0);
    assert(content == out);
    assert(out.subrange(0, 25) =~= s);
    assert(occurs_at(out, s, 0));
    crate::text::lemma_first_from_at(out, s, 0, 0);
    assert(out.skip(0) =~= out);
    assert forall|j: int| 0 <= j < 25 implies !#[trigger] occurs_at(out, nl, j) by {
        assert(out[j] == s[j]);
        if occurs_at(out, nl, j) {
            assert(out.subrange(j, j + 1)[0] == nl[0]);
        }
    }
    assert(out.subrange(25, 26) =~= nl);
    crate::text::lemma_first_from_at(out, nl, 0, 25);
    let body = out.skip(26);
    assert(body =~= tail);
    assert(body.subrange(region.len() as int, body.len() as int) =~= region_close());
    assert(occurs_at(body, region_close(), region.len() as int));
    assert(last_upto(body, region_close(), body.len() - region_close().len()) == Some(
        region.len() as int,
    ));
    assert(body.take(region.len() as int) =~= region);
}

} // verus!
