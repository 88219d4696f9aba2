//! Byte positions in UTF-8 text: character boundaries, slices, lines.
use vstd::prelude::*;
use vstd::string::StringSliceAdditionalSpecFns;
use vstd::utf8::{
    decode_utf8, encode_utf8_decode_utf8, encode_utf8_valid_utf8, is_char_boundary,
    is_char_boundary_iff_not_is_continuation_byte, is_char_boundary_start_end_of_seq,
    length_of_first_scalar, pop_first_scalar, valid_utf8, valid_utf8_split,
};

verus! {

pub const NEWLINE: u8 = 10;

// ---------------------------------------------------------------------------
// Character boundaries
// ---------------------------------------------------------------------------

/// The greatest character boundary at or below `i`.
pub open spec fn boundary_at_or_below(b: Seq<u8>, i: int) -> int
    decreases i,
{
    if i <= 0 {
        0
    } else if is_char_boundary(b, i) {
        i
    } else {
        boundary_at_or_below(b, i - 1)
    }
}

/// The least character boundary at or above `i`, at most the length of the text.
pub open spec fn boundary_at_or_above(b: Seq<u8>, i: int) -> int
    decreases b.len() - i,
{
    if i >= b.len() {
        b.len() as int
    } else if is_char_boundary(b, i) {
        i
    } else {
        boundary_at_or_above(b, i + 1)
    }
}

/// No character takes more than four bytes.
proof fn lemma_boundary_within_four(b: Seq<u8>, i: int) -> (k: int)
    requires
        valid_utf8(b),
        0 <= i <= b.len(),
    ensures
        i - 4 < k <= i,
        k >= 0,
        is_char_boundary(b, k),
    decreases b.len(),
{
    if i == 0 {
        0
    } else {
        let l = length_of_first_scalar(b);
        if i < l {
            0
        } else {
            let j = lemma_boundary_within_four(pop_first_scalar(b), i - l);
            assert(is_char_boundary(b, j + l));
            j + l
        }
    }
}

proof fn lemma_below_dominates(b: Seq<u8>, i: int, k: int)
    requires
        0 <= k <= i,
        is_char_boundary(b, k),
    ensures
        k <= boundary_at_or_below(b, i) <= i,
    decreases i,
{
    if i > 0 && !is_char_boundary(b, i) {
        lemma_below_dominates(b, i - 1, k);
    }
}

/// The boundary below is less than four bytes away.
pub proof fn lemma_boundary_at_or_below(b: Seq<u8>, i: int)
    requires
        valid_utf8(b),
        0 <= i <= b.len(),
    ensures
        0 <= boundary_at_or_below(b, i) <= i,
        i - 4 < boundary_at_or_below(b, i),
        is_char_boundary(b, boundary_at_or_below(b, i)),
    decreases i,
{
    let k = lemma_boundary_within_four(b, i);
    lemma_below_dominates(b, i, k);
    if i > 0 && !is_char_boundary(b, i) {
        lemma_boundary_at_or_below(b, i - 1);
    }
}

/// Every boundary at or above `i` is at or above the least one.
pub proof fn lemma_boundary_at_or_above(b: Seq<u8>, i: int, k: int)
    requires
        valid_utf8(b),
        0 <= i <= k <= b.len(),
        is_char_boundary(b, k),
    ensures
        i <= boundary_at_or_above(b, i) <= k,
        is_char_boundary(b, boundary_at_or_above(b, i)),
    decreases b.len() - i,
{
    is_char_boundary_start_end_of_seq(b);
    if i < b.len() && !is_char_boundary(b, i) {
        lemma_boundary_at_or_above(b, i + 1, k);
    }
}

/// The boundary above is less than four bytes away.
pub proof fn lemma_boundary_above_is_near(b: Seq<u8>, i: int)
    requires
        valid_utf8(b),
        0 <= i <= b.len(),
    ensures
        i <= boundary_at_or_above(b, i) <= i + 3,
{
    is_char_boundary_start_end_of_seq(b);
    let m: int = if i + 3 <= b.len() {
        i + 3
    } else {
        b.len() as int
    };
    let k = lemma_boundary_within_four(b, m);
    if k >= i {
        lemma_boundary_at_or_above(b, i, k);
    } else {
        // Only possible at the very end, where the end itself is a boundary.
        lemma_boundary_at_or_above(b, i, b.len() as int);
    }
}

/// Behind an ASCII byte there is a boundary.
pub proof fn lemma_boundary_after_ascii(b: Seq<u8>, i: int)
    requires
        valid_utf8(b),
        0 <= i < b.len(),
        b[i] <= 0x7f,
    ensures
        is_char_boundary(b, i),
        is_char_boundary(b, i + 1),
    decreases b.len(),
{
    is_char_boundary_iff_not_is_continuation_byte(b, i);
    let l = length_of_first_scalar(b);
    if i == 0 {
        reveal_with_fuel(is_char_boundary, 2);
        assert(l == 1);
        assert(is_char_boundary(pop_first_scalar(b), 0));
    } else {
        reveal_with_fuel(is_char_boundary, 2);
        assert(i >= l);
        lemma_boundary_after_ascii(pop_first_scalar(b), i - l);
    }
}

/// The bytes of a string are valid UTF-8 and decode to its characters.
pub proof fn lemma_str_bytes(s: &str)
    ensures
        valid_utf8(s.spec_bytes()),
        decode_utf8(s.spec_bytes()) == s@,
        is_char_boundary(s.spec_bytes(), 0),
        is_char_boundary(s.spec_bytes(), s.spec_bytes().len() as int),
{
    encode_utf8_valid_utf8(s@);
    encode_utf8_decode_utf8(s@);
    is_char_boundary_start_end_of_seq(s.spec_bytes());
}

/// The length of a text in bytes.
pub fn byte_len(s: &str) -> (n: usize)
    ensures
        n == s.spec_bytes().len(),
{
    s.as_bytes().len()
}

/// A boundary of the text is a boundary of the text's beginning up to a later boundary.
proof fn lemma_boundary_in_prefix(b: Seq<u8>, i: int, e: int)
    requires
        valid_utf8(b),
        0 <= i <= e <= b.len(),
        is_char_boundary(b, i),
        is_char_boundary(b, e),
    ensures
        valid_utf8(b.subrange(0, e)),
        is_char_boundary(b.subrange(0, e), i),
{
    valid_utf8_split(b, e);
    let p = b.subrange(0, e);
    if i == e {
        is_char_boundary_start_end_of_seq(p);
    } else {
        is_char_boundary_iff_not_is_continuation_byte(b, i);
        is_char_boundary_iff_not_is_continuation_byte(p, i);
        assert(p[i] == b[i]);
    }
}

pub fn floor_char_boundary(s: &str, i: usize) -> (r: usize)
    requires
        i <= s.spec_bytes().len(),
    ensures
        r == boundary_at_or_below(s.spec_bytes(), i as int),
        r <= i,
        i - 4 < r,
        is_char_boundary(s.spec_bytes(), r as int),
{
    let mut k: usize = i;
    proof {
        lemma_str_bytes(s);
        lemma_boundary_at_or_below(s.spec_bytes(), i as int);
    }
    while k > 0 && !s.is_char_boundary(k)
        invariant
            k <= i,
            boundary_at_or_below(s.spec_bytes(), i as int) == boundary_at_or_below(
                s.spec_bytes(),
                k as int,
            ),
        decreases k,
    {
        k -= 1;
    }
    k
}

pub fn ceil_char_boundary(s: &str, i: usize) -> (r: usize)
    requires
        i <= s.spec_bytes().len(),
    ensures
        r == boundary_at_or_above(s.spec_bytes(), i as int),
        i <= r <= s.spec_bytes().len(),
        is_char_boundary(s.spec_bytes(), r as int),
{
    let n = byte_len(s);
    let mut k: usize = i;
    proof {
        lemma_str_bytes(s);
        lemma_boundary_at_or_above(s.spec_bytes(), i as int, n as int);
    }
    while k < n && !s.is_char_boundary(k)
        invariant
            i <= k <= n,
            n == s.spec_bytes().len(),
            boundary_at_or_above(s.spec_bytes(), i as int) == boundary_at_or_above(
                s.spec_bytes(),
                k as int,
            ),
        decreases n - k,
    {
        k += 1;
    }
    k
}

/// The text between two boundaries.
pub fn slice_text<'a>(s: &'a str, from: usize, to: usize) -> (r: &'a str)
    requires
        from <= to <= s.spec_bytes().len(),
        is_char_boundary(s.spec_bytes(), from as int),
        is_char_boundary(s.spec_bytes(), to as int),
    ensures
        r.spec_bytes() == s.spec_bytes().subrange(from as int, to as int),
        r@ == decode_utf8(s.spec_bytes().subrange(from as int, to as int)),
{
    proof {
        lemma_str_bytes(s);
        lemma_boundary_in_prefix(s.spec_bytes(), from as int, to as int);
    }
    let (head, _tail) = s.split_at(to);
    let (_before, r) = head.split_at(from);
    proof {
        assert(r.spec_bytes() =~= s.spec_bytes().subrange(from as int, to as int));
        lemma_str_bytes(r);
    }
    r
}

// ---------------------------------------------------------------------------
// Lines
// ---------------------------------------------------------------------------

/// How many newlines there are among the first `n` bytes.
pub open spec fn newlines(b: Seq<u8>, n: int) -> nat
    decreases n,
{
    if n <= 0 {
        0
    } else {
        newlines(b, n - 1) + if b[n - 1] == NEWLINE {
            1nat
        } else {
            0nat
        }
    }
}

pub open spec fn saturated_u32(n: int) -> u32 {
    if n > u32::MAX {
        u32::MAX
    } else {
        n as u32
    }
}

/// The number, from 1, of the line that the byte at `offset` belongs to.
pub open spec fn line_number(b: Seq<u8>, offset: int) -> u32 {
    saturated_u32(1 + newlines(b, offset) as int)
}

/// How many lines the text has; a newline ends a line and opens no other.
pub open spec fn line_count(b: Seq<u8>) -> nat {
    newlines(b, b.len() as int) + if b.len() > 0 && b.last() != NEWLINE {
        1nat
    } else {
        0nat
    }
}

/// The line count that is recorded: at least 1, in 32 bits.
pub open spec fn recorded_line_count(b: Seq<u8>) -> u32 {
    if line_count(b) == 0 {
        1
    } else {
        (line_count(b) as usize) as u32
    }
}

/// The first and the last line that `b[start..end]` touches. An `end` outside the text stands for
/// the end of the text, and a `start` beyond the last line looked at for line 1.
pub open spec fn line_span(b: Seq<u8>, start: int, end: int) -> (u32, u32) {
    if 0 < end <= b.len() {
        (
            if start < b.len() && newlines(b, start) <= newlines(b, end - 1) {
                line_number(b, start)
            } else {
                1
            },
            line_number(b, end - 1),
        )
    } else {
        (
            if start < b.len() {
                line_number(b, start)
            } else {
                1
            },
            recorded_line_count(b),
        )
    }
}

/// Further bytes hold no fewer newlines.
pub proof fn lemma_newlines_monotonic(b: Seq<u8>, i: int, j: int)
    requires
        0 <= i <= j,
    ensures
        newlines(b, i) <= newlines(b, j) <= newlines(b, i) + (j - i),
    decreases j,
{
    if i < j {
        lemma_newlines_monotonic(b, i, j - 1);
    }
}

/// A range within the text spans from the line of its first byte to the line of its last.
pub proof fn lemma_line_span_inside(b: Seq<u8>, start: int, end: int)
    requires
        0 <= start < end <= b.len(),
    ensures
        line_span(b, start, end) == (line_number(b, start), line_number(b, end - 1)),
        1 <= line_span(b, start, end).0 <= line_span(b, start, end).1,
{
    lemma_newlines_monotonic(b, start, end - 1);
}

fn count_newlines(b: &[u8], n: usize) -> (r: usize)
    requires
        n <= b@.len(),
    ensures
        r == newlines(b@, n as int),
        r <= n,
{
    let mut r: usize = 0;
    let mut i: usize = 0;
    while i < n
        invariant
            i <= n <= b@.len(),
            r == newlines(b@, i as int),
            r <= i,
        decreases n - i,
    {
        if b[i] == NEWLINE {
            r += 1;
        }
        i += 1;
    }
    r
}

fn line_of_count(n: usize) -> (r: u32)
    ensures
        r == saturated_u32(1 + n),
{
    if n >= 0xffff_ffffusize {
        0xffff_ffff
    } else {
        (n + 1) as u32
    }
}

/// The number of lines of a text, at least 1.
pub fn count_lines(content: &str) -> (r: u32)
    ensures
        r == recorded_line_count(content.spec_bytes()),
{
    let b = content.as_bytes();
    let n = b.len();
    let k = count_newlines(b, n);
    let lines: usize = if n > 0 && b[n - 1] != NEWLINE {
        proof {
            assert(newlines(b@, n as int) == newlines(b@, n - 1));
            lemma_newlines_monotonic(b@, 0, n - 1);
        }
        k + 1
    } else {
        k
    };
    if lines == 0 {
        1
    } else {
        #[verifier::truncate]
        (lines as u32)
    }
}

pub fn line_numbers_for_offset_range(text: &str, start: usize, end: usize) -> (r: (u32, u32))
    ensures
        r == line_span(text.spec_bytes(), start as int, end as int),
{
    let b = text.as_bytes();
    let n = b.len();
    if 0 < end && end <= n {
        let last = count_newlines(b, end - 1);
        let first_line = if start < n {
            let first = count_newlines(b, start);
            if first <= last {
                line_of_count(first)
            } else {
                1
            }
        } else {
            1
        };
        (first_line, line_of_count(last))
    } else {
        let first_line = if start < n {
            line_of_count(count_newlines(b, start))
        } else {
            1
        };
        (first_line, count_lines(text))
    }
}

/// The end of the line that holds the byte at `i`: behind its newline, or the end of the text.
pub open spec fn line_end(b: Seq<u8>, i: int) -> int
    decreases b.len() - i,
{
    if i >= b.len() {
        b.len() as int
    } else if b[i] == NEWLINE {
        i + 1
    } else {
        line_end(b, i + 1)
    }
}

/// A line ends at a character boundary behind its start.
pub proof fn lemma_line_end(b: Seq<u8>, i: int)
    requires
        valid_utf8(b),
        0 <= i < b.len(),
    ensures
        i < line_end(b, i) <= b.len(),
        is_char_boundary(b, line_end(b, i)),
    decreases b.len() - i,
{
    is_char_boundary_start_end_of_seq(b);
    if b[i] == NEWLINE {
        lemma_boundary_after_ascii(b, i);
    } else if i + 1 < b.len() {
        lemma_line_end(b, i + 1);
    } else {
        assert(line_end(b, i + 1) == b.len());
    }
}

pub fn find_line_end(s: &str, i: usize) -> (r: usize)
    requires
        i < s.spec_bytes().len(),
    ensures
        r == line_end(s.spec_bytes(), i as int),
        i < r <= s.spec_bytes().len(),
        is_char_boundary(s.spec_bytes(), r as int),
{
    let b = s.as_bytes();
    proof {
        lemma_str_bytes(s);
        lemma_line_end(b@, i as int);
    }
    let mut k: usize = i;
    while k < b.len() && b[k] != NEWLINE
        invariant
            i <= k <= b@.len(),
            line_end(b@, i as int) == line_end(b@, k as int),
        decreases b@.len() - k,
    {
        k += 1;
    }
    if k < b.len() {
        k + 1
    } else {
        k
    }
}

/// A line ends behind its first newline, or with the text.
pub proof fn lemma_line_ends_at_first_newline(b: Seq<u8>, i: int)
    requires
        0 <= i < b.len(),
    ensures
        i < line_end(b, i) <= b.len(),
        forall|q: int| i <= q < line_end(b, i) - 1 ==> #[trigger] b[q] != 10,
        line_end(b, i) < b.len() ==> b[line_end(b, i) - 1] == 10,
        line_end(b, i) == b.len() || b[line_end(b, i) - 1] == 10,
    decreases b.len() - i,
{
    reveal_with_fuel(line_end, 2);
    if b[i] != NEWLINE && i + 1 < b.len() {
        lemma_line_ends_at_first_newline(b, i + 1);
    }
}

/// The number of a line is one more than the newlines before it.
pub proof fn lemma_lines_are_counted(b: Seq<u8>, n: int)
    requires
        0 <= n <= b.len(),
    ensures
        newlines(b, n) == b.take(n).filter(|x: u8| x == 10).len(),
        b.take(n).filter(|x: u8| x == 10).len() < u32::MAX ==> line_number(b, n) == 1 + b.take(
            n,
        ).filter(|x: u8| x == 10).len(),
    decreases n,
{
    reveal(Seq::filter);
    if n > 0 {
        lemma_lines_are_counted(b, n - 1);
        assert(b.take(n).drop_last() =~= b.take(n - 1));
        assert(b.take(n).last() == b[n - 1]);
    }
}

/// A text has as many lines as newlines, and one more where something stands behind the last; at
/// least one is recorded.
pub proof fn lemma_lines_are_recorded(b: Seq<u8>)
    requires
        b.len() < u32::MAX,
    ensures
        b.len() == 0 ==> recorded_line_count(b) == 1,
        b.len() > 0 && b.last() == 10 ==> recorded_line_count(b) == b.filter(|x: u8| x == 10).len(),
        b.len() > 0 && b.last() != 10 ==> recorded_line_count(b) == b.filter(
            |x: u8| x == 10,
        ).len() + 1,
{
    let is_end = |x: u8| x == 10;
    lemma_lines_are_counted(b, b.len() as int);
    assert(b.take(b.len() as int) =~= b);
    b.filter_lemma(is_end);
    if b.len() > 0 {
        reveal(Seq::filter);
        assert(b.filter(is_end).len() <= b.len()) by {
            lemma_no_more_newlines_than_bytes(b, b.len() as int);
        }
        if b.last() == 10 {
            assert(newlines(b, b.len() as int) == newlines(b, b.len() - 1) + 1);
        }
    }
}

proof fn lemma_no_more_newlines_than_bytes(b: Seq<u8>, n: int)
    requires
        0 <= n <= b.len(),
    ensures
        newlines(b, n) <= n,
    decreases n,
{
    if n > 0 {
        lemma_no_more_newlines_than_bytes(b, n - 1);
    }
}

} // verus!
