use vstd::prelude::*;

verus! {

/// Marks the cursor position in a prompt.
pub const CURSOR_MARKER: &'static str = "<|user_cursor_is_here|>";

/// Precedes an excerpt that begins at the start of its file.
pub const START_OF_FILE_MARKER: &'static str = "<|start_of_file|>";

/// Opens the region of a prompt that the model may rewrite.
pub const EDITABLE_REGION_START_MARKER: &'static str = "<|editable_region_start|>";

/// Closes the region of a prompt that the model may rewrite.
pub const EDITABLE_REGION_END_MARKER: &'static str = "<|editable_region_end|>";

pub open spec fn cursor_marker() -> Seq<char> {
    CURSOR_MARKER@
}

pub open spec fn start_of_file_marker() -> Seq<char> {
    START_OF_FILE_MARKER@
}

pub open spec fn region_start_marker() -> Seq<char> {
    EDITABLE_REGION_START_MARKER@
}

pub open spec fn region_end_marker() -> Seq<char> {
    EDITABLE_REGION_END_MARKER@
}

/// The characters of `s`.
pub fn chars_of(s: &str) -> (r: Vec<char>)
    ensures
        r@ == s@,
{
    let n = s.unicode_len();
    let mut r: Vec<char> = Vec::new();
    let mut i: usize = 0;
    while i < n
        invariant
            n == s@.len(),
            i <= n,
            r@ == s@.subrange(0, i as int),
        decreases n - i,
    {
        r.push(s.get_char(i));
        i = i + 1;
    }
    assert(r@ =~= s@);
    r
}

/// Relies on `String`'s `FromIterator<&char>`: the string holds the characters in order.
#[verifier::external_body]
pub fn string_of(chars: &Vec<char>) -> (r: String)
    ensures
        r@ == chars@,
{
    chars.iter().collect()
}

/// Appends the characters of `s` to `out`.
pub fn push_all(out: &mut Vec<char>, s: &Vec<char>)
    ensures
        final(out)@ == old(out)@ + s@,
{
    let mut i: usize = 0;
    while i < s.len()
        invariant
            i <= s.len(),
            out@ == old(out)@ + s@.subrange(0, i as int),
        decreases s.len() - i,
    {
        out.push(s[i]);
        i = i + 1;
    }
    assert(s@.subrange(0, i as int) =~= s@);
}

/// Appends `text[from..to]` to `out`.
pub fn push_range(out: &mut Vec<char>, text: &Vec<char>, from: usize, to: usize)
    requires
        from <= to <= text.len(),
    ensures
        final(out)@ == old(out)@ + text@.subrange(from as int, to as int),
{
    let mut i: usize = from;
    while i < to
        invariant
            from <= i <= to <= text.len(),
            out@ == old(out)@ + text@.subrange(from as int, i as int),
        decreases to - i,
    {
        out.push(text[i]);
        i = i + 1;
        assert(text@.subrange(from as int, i as int) =~= text@.subrange(from as int, i - 1).push(
            text@[i - 1],
        ));
    }
}

/// Whether `m` occurs in `s` at position `i`.
pub open spec fn occurs_at(s: Seq<char>, m: Seq<char>, i: int) -> bool {
    0 <= i && i + m.len() <= s.len() && s.subrange(i, i + m.len()) == m
}

/// How many times `m` occurs in `s` from position `i` on, scanning left to right and
/// resuming after each occurrence, so that occurrences do not overlap.
pub open spec fn count_from(s: Seq<char>, m: Seq<char>, i: int) -> nat
    decreases s.len() - i,
{
    if m.len() == 0 || i < 0 || i + m.len() > s.len() {
        0
    } else if occurs_at(s, m, i) {
        1 + count_from(s, m, i + m.len())
    } else {
        count_from(s, m, i + 1)
    }
}

/// `s` from position `i` on, with the occurrences of `m` that such a scan finds taken out.
pub open spec fn strip_from(s: Seq<char>, m: Seq<char>, i: int) -> Seq<char>
    decreases s.len() - i,
{
    if i < 0 || i >= s.len() {
        Seq::empty()
    } else if m.len() > 0 && occurs_at(s, m, i) {
        strip_from(s, m, i + m.len())
    } else {
        seq![s[i]] + strip_from(s, m, i + 1)
    }
}

/// The first position from `i` on where `m` occurs.
pub open spec fn first_from(s: Seq<char>, m: Seq<char>, i: int) -> Option<int>
    decreases s.len() + 1 - i,
{
    if i < 0 || i + m.len() > s.len() {
        None
    } else if occurs_at(s, m, i) {
        Some(i)
    } else {
        first_from(s, m, i + 1)
    }
}

pub proof fn lemma_first_from_bounds(s: Seq<char>, m: Seq<char>, i: int)
    ensures
        first_from(s, m, i) matches Some(q) ==> i <= q && occurs_at(s, m, q),
    decreases s.len() + 1 - i,
{
    if !(i < 0 || i + m.len() > s.len()) && !occurs_at(s, m, i) {
        lemma_first_from_bounds(s, m, i + 1);
    }
}

/// The last position, at most `k`, where `m` occurs.
pub open spec fn last_upto(s: Seq<char>, m: Seq<char>, k: int) -> Option<int>
    decreases k + 1,
{
    if k < 0 {
        None
    } else if occurs_at(s, m, k) {
        Some(k)
    } else {
        last_upto(s, m, k - 1)
    }
}

pub proof fn lemma_last_upto_bounds(s: Seq<char>, m: Seq<char>, k: int)
    ensures
        last_upto(s, m, k) matches Some(q) ==> q <= k && occurs_at(s, m, q),
    decreases k + 1,
{
    if k >= 0 && !occurs_at(s, m, k) {
        lemma_last_upto_bounds(s, m, k - 1);
    }
}

/// The last position where `m` occurs in `s`.
pub open spec fn last_occurrence(s: Seq<char>, m: Seq<char>) -> Option<int> {
    last_upto(s, m, s.len() - m.len())
}

/// Whether `m` occurs in `s` at position `i`.
pub fn matches_at(s: &Vec<char>, m: &Vec<char>, i: usize) -> (r: bool)
    ensures
        r == occurs_at(s@, m@, i as int),
{
    if i > s.len() || m.len() > s.len() - i {
        return false;
    }
    let mut k: usize = 0;
    while k < m.len()
        invariant
            i + m.len() <= s.len(),
            k <= m.len(),
            forall|j: int| 0 <= j < k ==> s@[i + j] == m@[j],
        decreases m.len() - k,
    {
        if s[i + k] != m[k] {
            assert(s@.subrange(i as int, i + m.len())[k as int] != m@[k as int]);
            return false;
        }
        k = k + 1;
    }
    assert(s@.subrange(i as int, i + m.len()) =~= m@);
    true
}

/// Counts the occurrences of `m` in `s` that a left-to-right scan finds.
pub fn count_matches(s: &Vec<char>, m: &Vec<char>) -> (r: usize)
    ensures
        r == count_from(s@, m@, 0),
{
    if m.len() == 0 {
        return 0;
    }
    let mut i: usize = 0;
    let mut n: usize = 0;
    while m.len() <= s.len() - i
        invariant
            m.len() > 0,
            i <= s.len(),
            n <= i,
            n + count_from(s@, m@, i as int) == count_from(s@, m@, 0),
        decreases s.len() - i,
    {
        if matches_at(s, m, i) {
            n = n + 1;
            i = i + m.len();
        } else {
            i = i + 1;
        }
    }
    n
}

/// `s` with every occurrence of `m` that a left-to-right scan finds taken out.
pub fn strip_matches(s: &Vec<char>, m: &Vec<char>) -> (r: Vec<char>)
    ensures
        r@ == strip_from(s@, m@, 0),
{
    let mut r: Vec<char> = Vec::new();
    let mut i: usize = 0;
    while i < s.len()
        invariant
            i <= s.len(),
            r@ + strip_from(s@, m@, i as int) == strip_from(s@, m@, 0),
        decreases s.len() - i,
    {
        if m.len() > 0 && matches_at(s, m, i) {
            i = i + m.len();
        } else {
            let ghost before = r@;
            r.push(s[i]);
            assert(before + strip_from(s@, m@, i as int) =~= r@ + strip_from(s@, m@, i + 1));
            i = i + 1;
        }
    }
    assert(r@ + strip_from(s@, m@, i as int) =~= r@);
    r
}

/// The first position from `from` on where `m` occurs in `s`.
pub fn find_from(s: &Vec<char>, m: &Vec<char>, from: usize) -> (r: Option<usize>)
    ensures
        r matches Some(p) ==> first_from(s@, m@, from as int) == Some(p as int),
        r is None ==> first_from(s@, m@, from as int) is None,
{
    if m.len() == 0 {
        return if from <= s.len() {
            assert(s@.subrange(from as int, from as int) =~= m@);
            Some(from)
        } else {
            None
        };
    }
    let mut i: usize = from;
    while i < s.len() && m.len() <= s.len() - i
        invariant
            m.len() > 0,
            from <= i,
            first_from(s@, m@, i as int) == first_from(s@, m@, from as int),
        decreases s.len() + 1 - i,
    {
        if matches_at(s, m, i) {
            return Some(i);
        }
        i = i + 1;
    }
    None
}

/// The last position where `m` occurs in `s`.
pub fn rfind(s: &Vec<char>, m: &Vec<char>) -> (r: Option<usize>)
    ensures
        r matches Some(p) ==> last_occurrence(s@, m@) == Some(p as int),
        r is None ==> last_occurrence(s@, m@) is None,
{
    if m.len() > s.len() {
        return None;
    }
    let mut k: usize = s.len() - m.len();
    loop
        invariant
            k + m.len() <= s.len(),
            last_upto(s@, m@, k as int) == last_occurrence(s@, m@),
        decreases k,
    {
        if matches_at(s, m, k) {
            return Some(k);
        }
        if k == 0 {
            assert(last_upto(s@, m@, -1) is None);
            return None;
        }
        k = k - 1;
    }
}

} // verus!

verus! {

proof fn lemma_occurs_shift(x: Seq<char>, b: Seq<char>, m: Seq<char>, j: int)
    requires
        0 <= j,
    ensures
        occurs_at(x + b, m, x.len() + j) == occurs_at(b, m, j),
{
    let s = x + b;
    if j + m.len() <= b.len() {
        assert(s.subrange(x.len() + j, x.len() + j + m.len()) =~= b.subrange(j, j + m.len()));
    }
}

proof fn lemma_count_shift(x: Seq<char>, b: Seq<char>, m: Seq<char>, j: int)
    requires
        0 <= j,
    ensures
        count_from(x + b, m, x.len() + j) == count_from(b, m, j),
    decreases b.len() - j,
{
    lemma_occurs_shift(x, b, m, j);
    if !(m.len() == 0 || j + m.len() > b.len()) {
        if occurs_at(b, m, j) {
            lemma_count_shift(x, b, m, j + m.len());
        } else {
            lemma_count_shift(x, b, m, j + 1);
        }
    }
}

/// Occurrences of a pattern without line breaks never span a line break.
proof fn lemma_count_split_from(a: Seq<char>, b: Seq<char>, m: Seq<char>, i: int)
    requires
        0 <= i <= a.len(),
        m.len() > 0,
        forall|k: int| 0 <= k < m.len() ==> m[k] != '\n',
    ensures
        count_from(a + seq!['\n'] + b, m, i) == count_from(a, m, i) + count_from(b, m, 0),
    decreases a.len() - i,
{
    let s = a + seq!['\n'] + b;
    let x = a + seq!['\n'];
    assert(s =~= x + b);
    if i + m.len() > s.len() {
        assert(count_from(b, m, 0) == 0);
    } else if i == a.len() {
        assert(s[i] == '\n');
        assert(!occurs_at(s, m, i)) by {
            if occurs_at(s, m, i) {
                assert(s.subrange(i, i + m.len())[0] == m[0]);
            }
        }
        lemma_count_shift(x, b, m, 0);
    } else {
        if i + m.len() > a.len() {
            assert(!occurs_at(s, m, i)) by {
                if occurs_at(s, m, i) {
                    assert(s.subrange(i, i + m.len())[a.len() - i] == m[a.len() - i]);
                }
            }
            lemma_count_split_from(a, b, m, i + 1);
            assert(count_from(a, m, i + 1) == 0);
        } else {
            assert(s.subrange(i, i + m.len()) =~= a.subrange(i, i + m.len()));
            if occurs_at(a, m, i) {
                lemma_count_split_from(a, b, m, i + m.len());
            } else {
                lemma_count_split_from(a, b, m, i + 1);
            }
        }
    }
}

pub proof fn lemma_count_split(a: Seq<char>, b: Seq<char>, m: Seq<char>)
    requires
        m.len() > 0,
        forall|k: int| 0 <= k < m.len() ==> m[k] != '\n',
    ensures
        count_from(a + seq!['\n'] + b, m, 0) == count_from(a, m, 0) + count_from(b, m, 0),
{
    lemma_count_split_from(a, b, m, 0);
}

/// Where a scan finds no occurrence, taking the occurrences out changes nothing.
pub proof fn lemma_strip_nothing(s: Seq<char>, m: Seq<char>, i: int)
    requires
        0 <= i <= s.len(),
        m.len() > 0,
        count_from(s, m, i) == 0,
    ensures
        strip_from(s, m, i) == s.skip(i),
    decreases s.len() - i,
{
    if i < s.len() {
        if i + m.len() <= s.len() {
            assert(!occurs_at(s, m, i));
        }
        assert(count_from(s, m, i + 1) == 0);
        lemma_strip_nothing(s, m, i + 1);
        assert(s.skip(i) =~= seq![s[i]] + s.skip(i + 1));
    } else {
        assert(s.skip(i) =~= Seq::<char>::empty());
    }
}

/// A pattern that starts with `<` is not found in a text that has `<` only at its start,
/// when the two differ at position `d`.
proof fn lemma_count_none(a: Seq<char>, m: Seq<char>, d: int, i: int)
    requires
        m.len() > 0,
        m[0] == '<',
        forall|k: int| 0 < k < a.len() ==> a[k] != '<',
        0 <= i,
        0 <= d < m.len(),
        d < a.len() ==> a[d] != m[d],
    ensures
        count_from(a, m, i) == 0,
    decreases a.len() - i,
{
    if !(i + m.len() > a.len()) {
        assert(!occurs_at(a, m, i)) by {
            if occurs_at(a, m, i) {
                if i == 0 {
                    assert(a.subrange(i, i + m.len())[d] == m[d]);
                } else {
                    assert(a.subrange(i, i + m.len())[0] == m[0]);
                }
            }
        }
        lemma_count_none(a, m, d, i + 1);
    }
}

/// The facts about the markers that reading a reply relies on.
pub proof fn lemma_marker_facts()
    ensures
        cursor_marker().len() == 23,
        start_of_file_marker().len() == 17,
        region_start_marker().len() == 25,
        region_end_marker().len() == 23,
        forall|k: int| 0 <= k < 23 ==> #[trigger] cursor_marker()[k] != '\n',
        forall|k: int| 0 <= k < 17 ==> #[trigger] start_of_file_marker()[k] != '\n',
        forall|k: int| 0 <= k < 25 ==> #[trigger] region_start_marker()[k] != '\n',
        forall|k: int| 0 <= k < 23 ==> #[trigger] region_end_marker()[k] != '\n',
        count_from(region_start_marker(), cursor_marker(), 0) == 0,
        count_from(region_end_marker(), cursor_marker(), 0) == 0,
        count_from(region_start_marker(), region_start_marker(), 0) == 1,
        count_from(region_end_marker(), region_start_marker(), 0) == 0,
        count_from(region_start_marker(), region_end_marker(), 0) == 0,
        count_from(region_end_marker(), region_end_marker(), 0) == 1,
        count_from(region_start_marker(), start_of_file_marker(), 0) == 0,
        count_from(region_end_marker(), start_of_file_marker(), 0) == 0,
{
    reveal_strlit("<|user_cursor_is_here|>");
    reveal_strlit("<|start_of_file|>");
    reveal_strlit("<|editable_region_start|>");
    reveal_strlit("<|editable_region_end|>");
    let c = cursor_marker();
    let f = start_of_file_marker();
    let s = region_start_marker();
    let e = region_end_marker();
    assert(forall|k: int| 0 < k < 25 ==> #[trigger] s[k] != '<');
    assert(forall|k: int| 0 < k < 23 ==> #[trigger] e[k] != '<');
    lemma_count_none(s, c, 2, 0);
    lemma_count_none(e, c, 2, 0);
    lemma_count_none(e, s, 18, 0);
    lemma_count_none(s, e, 18, 0);
    lemma_count_none(s, f, 2, 0);
    lemma_count_none(e, f, 2, 0);
    assert(s.subrange(0, 25) =~= s);
    assert(e.subrange(0, 23) =~= e);
    assert(count_from(s, s, 25) == 0);
    assert(count_from(e, e, 23) == 0);
}

} // verus!

verus! {

pub proof fn lemma_first_from_at(s: Seq<char>, m: Seq<char>, i: int, k: int)
    requires
        0 <= i <= k,
        forall|j: int| i <= j < k ==> !#[trigger] occurs_at(s, m, j),
        occurs_at(s, m, k),
    ensures
        first_from(s, m, i) == Some(k),
    decreases k - i,
{
    if i < k {
        lemma_first_from_at(s, m, i + 1, k);
    }
}

} // verus!

verus! {

/// How many bytes UTF-8 takes for `c`.
pub open spec fn char_utf8_len(c: char) -> nat {
    let v = c as u32;
    if v < 0x80 {
        1
    } else if v < 0x800 {
        2
    } else if v < 0x10000 {
        3
    } else {
        4
    }
}

/// How many bytes UTF-8 takes for `s`.
pub open spec fn utf8_len(s: Seq<char>) -> nat
    decreases s.len(),
{
    if s.len() == 0 {
        0
    } else {
        utf8_len(s.drop_last()) + char_utf8_len(s.last())
    }
}

/// A text whose UTF-8 length fits in `usize`, as that of any text in memory does: each
/// character is stored in four bytes.
pub open spec fn fits_in_memory(s: Seq<char>) -> bool {
    4 * s.len() <= usize::MAX
}

/// How many bytes UTF-8 takes for `text[from..to]`.
pub fn utf8_len_of(text: &Vec<char>, from: usize, to: usize) -> (r: usize)
    requires
        from <= to <= text.len(),
        fits_in_memory(text@),
    ensures
        r == utf8_len(text@.subrange(from as int, to as int)),
{
    let mut i: usize = from;
    let mut r: usize = 0;
    assert(text@.subrange(from as int, from as int) =~= Seq::<char>::empty());
    while i < to
        invariant
            from <= i <= to <= text.len(),
            4 * text.len() <= usize::MAX,
            r == utf8_len(text@.subrange(from as int, i as int)),
            r <= 4 * (i - from),
        decreases to - i,
    {
        let v = text[i] as u32;
        let n: usize = if v < 0x80 {
            1
        } else if v < 0x800 {
            2
        } else if v < 0x10000 {
            3
        } else {
            4
        };
        assert(text@.subrange(from as int, i + 1).drop_last() =~= text@.subrange(from as int, i as int));
        r = r + n;
        i = i + 1;
    }
    r
}

} // verus!
