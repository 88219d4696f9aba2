//! Chunks of text for full-text search and embedding.
//!
//! Plain text is cut into overlapping pieces of a bounded size, preferably behind a newline.
//! Markdown is cut at its headings first; only sections over a cap are cut further.
use crate::text::{
    blank, drop_white_space, from_chars, is_blank, is_white_space, join2, join3, same_text, skip_white_space,
    split_on, split_text, texts, to_chars, trim, trim_start,
};
use crate::utf8_text::{
    boundary_at_or_above,
    boundary_at_or_below,
    byte_len,
    ceil_char_boundary,
    count_lines,
    find_line_end,
    floor_char_boundary,
    lemma_boundary_above_is_near,
    lemma_boundary_at_or_above,
    lemma_boundary_at_or_below,
    lemma_boundary_after_ascii,
    lemma_line_end,
    line_number,
    lemma_line_span_inside,
    lemma_str_bytes,
    line_end,
    line_numbers_for_offset_range,
    line_span,
    recorded_line_count,
    slice_text,
    NEWLINE,
};
use vstd::prelude::*;
use vstd::string::StringSliceAdditionalSpecFns;
use vstd::utf8::{
    decode_utf8,
    encode_utf8,
    is_char_boundary,
    is_char_boundary_start_end_of_seq,
    valid_utf8,
};

verus! {

/// Upper bound in bytes for a chunk that holds a whole Markdown section.
pub const MARKDOWN_SECTION_MAX_BYTES: usize = 65536;

/// Upper bound in bytes for a piece of plain text.
pub const PLAIN_TEXT_MAX_CHUNK_BYTES: usize = 2048;

/// How far a piece of plain text reaches back into the one before it.
pub const PLAIN_TEXT_OVERLAP_BYTES: usize = 256;

/// The least number of bytes that a headline chunk takes from each end of a text.
pub const HEADLINE_MIN_EACH_BYTES: usize = 4096;

#[derive(Debug, Clone)]
pub struct IndexedChunk {
    pub start_line: u32,
    pub end_line: u32,
    pub content: String,
    pub context_path: String,
}

#[verifier::ext_equal]
pub struct ChunkView {
    pub start_line: u32,
    pub end_line: u32,
    pub content: Seq<char>,
    pub context_path: Seq<char>,
}

impl View for IndexedChunk {
    type V = ChunkView;

    open spec fn view(&self) -> ChunkView {
        ChunkView {
            start_line: self.start_line,
            end_line: self.end_line,
            content: self.content@,
            context_path: self.context_path@,
        }
    }
}

pub open spec fn chunk_views(v: Seq<IndexedChunk>) -> Seq<ChunkView> {
    v.map_values(|c: IndexedChunk| c@)
}

/// The chunk made of `b[start..end]`.
pub open spec fn chunk_of_range(b: Seq<u8>, start: int, end: int, context: Seq<char>) -> ChunkView {
    ChunkView {
        start_line: line_span(b, start, end).0,
        end_line: line_span(b, start, end).1,
        content: decode_utf8(b.subrange(start, end)),
        context_path: context,
    }
}

// ---------------------------------------------------------------------------
// Plain text
// ---------------------------------------------------------------------------

/// `start..end` is a range of valid UTF-8 between two character boundaries.
pub open spec fn text_range(b: Seq<u8>, start: int, end: int) -> bool {
    &&& valid_utf8(b)
    &&& 0 <= start <= end <= b.len()
    &&& is_char_boundary(b, start)
    &&& is_char_boundary(b, end)
}

/// The greatest index in `lo..hi` that holds a newline, or `lo - 1` where none does.
pub open spec fn last_newline(b: Seq<u8>, lo: int, hi: int) -> int
    decreases hi - lo,
{
    if hi <= lo {
        lo - 1
    } else if b[hi - 1] == NEWLINE {
        hi - 1
    } else {
        last_newline(b, lo, hi - 1)
    }
}

/// Where the piece that begins at `start` ends. The last piece takes all that is left. Another one
/// ends behind its last newline, provided that this leaves it more than the overlap, and else at
/// the last character boundary within the size bound.
pub open spec fn piece_end(b: Seq<u8>, start: int, range_end: int) -> int {
    if range_end - start <= PLAIN_TEXT_MAX_CHUNK_BYTES {
        range_end
    } else {
        let limit = boundary_at_or_below(b, start + PLAIN_TEXT_MAX_CHUNK_BYTES);
        let newline = last_newline(b, start + PLAIN_TEXT_OVERLAP_BYTES, limit);
        if newline >= start + PLAIN_TEXT_OVERLAP_BYTES {
            newline + 1
        } else {
            limit
        }
    }
}

/// Where the piece behind one that ends at `end` begins.
pub open spec fn next_piece_start(b: Seq<u8>, end: int) -> int {
    boundary_at_or_above(b, end - PLAIN_TEXT_OVERLAP_BYTES)
}

/// The pieces of `b[start..range_end]`, each as the range of bytes that it holds.
pub open spec fn pieces(b: Seq<u8>, start: int, range_end: int) -> Seq<(int, int)>
    decreases range_end - start,
    when text_range(b, start, range_end)
    via pieces_decreases
{
    let end = piece_end(b, start, range_end);
    if start >= range_end {
        Seq::empty()
    } else if end >= range_end {
        seq![(start, end)]
    } else {
        seq![(start, end)] + pieces(b, next_piece_start(b, end), range_end)
    }
}

/// The pieces of a range that may be turned round: then there are none.
pub open spec fn range_pieces(b: Seq<u8>, start: int, range_end: int) -> Seq<(int, int)> {
    if start >= range_end {
        Seq::empty()
    } else {
        pieces(b, start, range_end)
    }
}

#[via_fn]
proof fn pieces_decreases(b: Seq<u8>, start: int, range_end: int) {
    if start < range_end {
        lemma_piece(b, start, range_end);
    }
}

proof fn lemma_last_newline(b: Seq<u8>, lo: int, hi: int)
    requires
        0 <= lo <= hi <= b.len(),
    ensures
        lo - 1 <= last_newline(b, lo, hi) < hi || lo == hi,
        last_newline(b, lo, hi) >= lo ==> b[last_newline(b, lo, hi)] == NEWLINE,
    decreases hi - lo,
{
    if lo < hi && b[hi - 1] != NEWLINE {
        lemma_last_newline(b, lo, hi - 1);
    }
}

/// One piece: it is not empty and keeps the size bound, and the next one begins inside it.
proof fn lemma_piece(b: Seq<u8>, start: int, range_end: int)
    requires
        text_range(b, start, range_end),
        start < range_end,
    ensures
        start < piece_end(b, start, range_end) <= range_end,
        piece_end(b, start, range_end) - start <= PLAIN_TEXT_MAX_CHUNK_BYTES,
        is_char_boundary(b, piece_end(b, start, range_end)),
        piece_end(b, start, range_end) < range_end ==> {
            let end = piece_end(b, start, range_end);
            let next = next_piece_start(b, end);
            &&& start < next < end
            &&& PLAIN_TEXT_OVERLAP_BYTES - 3 <= end - next <= PLAIN_TEXT_OVERLAP_BYTES
            &&& text_range(b, next, range_end)
        },
{
    let end = piece_end(b, start, range_end);
    if range_end - start > PLAIN_TEXT_MAX_CHUNK_BYTES {
        let limit = boundary_at_or_below(b, start + PLAIN_TEXT_MAX_CHUNK_BYTES);
        lemma_boundary_at_or_below(b, start + PLAIN_TEXT_MAX_CHUNK_BYTES);
        let newline = last_newline(b, start + PLAIN_TEXT_OVERLAP_BYTES, limit);
        lemma_last_newline(b, start + PLAIN_TEXT_OVERLAP_BYTES, limit);
        if newline >= start + PLAIN_TEXT_OVERLAP_BYTES {
            lemma_boundary_after_ascii(b, newline);
        }
        assert(end - start > PLAIN_TEXT_OVERLAP_BYTES);
        lemma_boundary_at_or_above(b, end - PLAIN_TEXT_OVERLAP_BYTES, end);
        lemma_boundary_above_is_near(b, end - PLAIN_TEXT_OVERLAP_BYTES);
    }
}

/// The pieces of a range cover it without a gap. Each is a non-empty range between character
/// boundaries, of at most `PLAIN_TEXT_MAX_CHUNK_BYTES` bytes. The first begins where the range
/// begins, the last ends where it ends, and each of the others begins inside the piece before it,
/// so that the two share the overlap, less at most the bytes of a character that it would cut.
pub proof fn lemma_pieces_cover(b: Seq<u8>, start: int, range_end: int)
    requires
        text_range(b, start, range_end),
        start < range_end,
    ensures
        ({
            let p = pieces(b, start, range_end);
            &&& p.len() > 0
            &&& p[0].0 == start
            &&& p.last().1 == range_end
            &&& forall|i: int|
                0 <= i < p.len() ==> {
                    &&& start <= (#[trigger] p[i]).0 < p[i].1 <= range_end
                    &&& p[i].1 - p[i].0 <= PLAIN_TEXT_MAX_CHUNK_BYTES
                    &&& is_char_boundary(b, p[i].0)
                    &&& is_char_boundary(b, p[i].1)
                }
            &&& forall|i: int|
                0 < i < p.len() ==> {
                    &&& p[i - 1].0 < (#[trigger] p[i]).0 < p[i - 1].1
                    &&& PLAIN_TEXT_OVERLAP_BYTES - 3 <= p[i - 1].1 - p[i].0
                        <= PLAIN_TEXT_OVERLAP_BYTES
                }
        }),
    decreases range_end - start,
{
    lemma_piece(b, start, range_end);
    let end = piece_end(b, start, range_end);
    let p = pieces(b, start, range_end);
    if end < range_end {
        let next = next_piece_start(b, end);
        lemma_pieces_cover(b, next, range_end);
        let q = pieces(b, next, range_end);
        assert(p == seq![(start, end)] + q);
        assert(p.last() == q.last());
        assert forall|i: int| 0 <= i < p.len() implies {
            &&& start <= (#[trigger] p[i]).0 < p[i].1 <= range_end
            &&& p[i].1 - p[i].0 <= PLAIN_TEXT_MAX_CHUNK_BYTES
            &&& is_char_boundary(b, p[i].0)
            &&& is_char_boundary(b, p[i].1)
        } by {
            if i > 0 {
                assert(p[i] == q[i - 1]);
            }
        }
        assert forall|i: int| 0 < i < p.len() implies {
            &&& p[i - 1].0 < (#[trigger] p[i]).0 < p[i - 1].1
            &&& PLAIN_TEXT_OVERLAP_BYTES - 3 <= p[i - 1].1 - p[i].0 <= PLAIN_TEXT_OVERLAP_BYTES
        } by {
            assert(p[i] == q[i - 1]);
            if i > 1 {
                assert(p[i - 1] == q[i - 2]);
            }
        }
    }
}

/// Every byte of a range lies in one of its pieces.
pub proof fn lemma_every_byte_in_a_piece(b: Seq<u8>, start: int, range_end: int, k: int)
    requires
        text_range(b, start, range_end),
        start <= k < range_end,
    ensures
        exists|i: int|
            0 <= i < pieces(b, start, range_end).len() && (#[trigger] pieces(
                b,
                start,
                range_end,
            )[i]).0 <= k < pieces(b, start, range_end)[i].1,
    decreases range_end - start,
{
    lemma_piece(b, start, range_end);
    let end = piece_end(b, start, range_end);
    let p = pieces(b, start, range_end);
    if k < end {
        assert(p[0] == (start, end));
    } else {
        let next = next_piece_start(b, end);
        lemma_every_byte_in_a_piece(b, next, range_end, k);
        let q = pieces(b, next, range_end);
        let j = choose|j: int| 0 <= j < q.len() && (#[trigger] q[j]).0 <= k < q[j].1;
        assert(p[j + 1] == q[j]);
    }
}

/// The chunks that pieces make.
pub open spec fn piece_chunks(b: Seq<u8>, p: Seq<(int, int)>, context: Seq<char>) -> Seq<
    ChunkView,
> {
    p.map_values(|r: (int, int)| chunk_of_range(b, r.0, r.1, context))
}

/// Pushes the chunk made of `text[start..end]`.
fn push_range(text: &str, start: usize, end: usize, context: &str, out: &mut Vec<IndexedChunk>)
    requires
        text_range(text.spec_bytes(), start as int, end as int),
    ensures
        chunk_views(final(out)@) == chunk_views(old(out)@).push(
            chunk_of_range(text.spec_bytes(), start as int, end as int, context@),
        ),
{
    let ghost before = out@;
    let content = slice_text(text, start, end).to_owned();
    let (start_line, end_line) = line_numbers_for_offset_range(text, start, end);
    out.push(IndexedChunk { start_line, end_line, content, context_path: context.to_owned() });
    proof {
        assert(chunk_views(out@) =~= chunk_views(before).push(
            chunk_of_range(text.spec_bytes(), start as int, end as int, context@),
        ));
    }
}

fn find_last_newline(b: &[u8], lo: usize, hi: usize) -> (r: Option<usize>)
    requires
        0 < lo <= hi <= b@.len(),
    ensures
        match r {
            Some(k) => lo <= k < hi && k == last_newline(b@, lo as int, hi as int),
            None => last_newline(b@, lo as int, hi as int) == lo - 1,
        },
{
    let mut k: usize = hi;
    while k > lo
        invariant
            0 < lo <= k <= hi <= b@.len(),
            last_newline(b@, lo as int, hi as int) == last_newline(b@, lo as int, k as int),
        decreases k,
    {
        if b[k - 1] == NEWLINE {
            return Some(k - 1);
        }
        k -= 1;
    }
    None
}

/// Splits `text[range_start..range_end]` into bounded chunks and pushes them.
fn split_plain_text_in_range(
    text: &str,
    range_start: usize,
    range_end: usize,
    context: &str,
    out: &mut Vec<IndexedChunk>,
)
    requires
        range_start < range_end ==> text_range(
            text.spec_bytes(),
            range_start as int,
            range_end as int,
        ),
    ensures
        range_end <= range_start <==> final(out)@.len() == old(out)@.len(),
        chunk_views(final(out)@) == chunk_views(old(out)@) + piece_chunks(
            text.spec_bytes(),
            range_pieces(text.spec_bytes(), range_start as int, range_end as int),
            context@,
        ),
{
    let bytes = text.as_bytes();
    let ghost b = text.spec_bytes();
    let ghost all = piece_chunks(
        b,
        range_pieces(b, range_start as int, range_end as int),
        context@,
    );
    let ghost base = chunk_views(out@);
    let mut start: usize = range_start;
    let mut done = range_start >= range_end;
    proof {
        if done {
            assert(all =~= Seq::empty());
            assert(base + all =~= base);
        } else {
            lemma_pieces_cover(b, range_start as int, range_end as int);
        }
        assert(chunk_views(out@).len() == out@.len());
    }
    while !done
        invariant
            b == text.spec_bytes(),
            bytes@ == b,
            !done ==> text_range(b, start as int, range_end as int),
            !done ==> start < range_end,
            !done ==> base + all == chunk_views(out@) + piece_chunks(
                b,
                pieces(b, start as int, range_end as int),
                context@,
            ),
            done ==> base + all == chunk_views(out@),
        decreases range_end - start, if done { 0int } else { 1int },
    {
        proof {
            lemma_piece(b, start as int, range_end as int);
        }
        let end: usize = if range_end - start <= PLAIN_TEXT_MAX_CHUNK_BYTES {
            range_end
        } else {
            let limit = floor_char_boundary(text, start + PLAIN_TEXT_MAX_CHUNK_BYTES);
            match find_last_newline(bytes, start + PLAIN_TEXT_OVERLAP_BYTES, limit) {
                Some(k) => k + 1,
                None => limit,
            }
        };
        assert(end == piece_end(b, start as int, range_end as int));
        let ghost before = chunk_views(out@);
        push_range(text, start, end, context, out);
        let ghost here = chunk_of_range(b, start as int, end as int, context@);
        if end >= range_end {
            proof {
                assert(piece_chunks(b, pieces(b, start as int, range_end as int), context@)
                    =~= seq![here]);
                assert(before + seq![here] =~= before.push(here));
            }
            done = true;
        } else {
            let next = ceil_char_boundary(text, end - PLAIN_TEXT_OVERLAP_BYTES);
            proof {
                let rest = pieces(b, next as int, range_end as int);
                assert(piece_chunks(b, pieces(b, start as int, range_end as int), context@)
                    =~= seq![here] + piece_chunks(b, rest, context@));
                assert(before + (seq![here] + piece_chunks(b, rest, context@)) =~= before.push(here)
                    + piece_chunks(b, rest, context@));
            }
            start = next;
        }
    }
    proof {
        assert(chunk_views(out@).len() == out@.len());
    }
}

/// The chunk that stands for a text of which nothing else is worth a chunk.
pub open spec fn whole_text_chunk(path: Seq<char>, text: Seq<char>) -> ChunkView {
    ChunkView {
        start_line: 1,
        end_line: recorded_line_count(encode_utf8(text)),
        content: text,
        context_path: path,
    }
}

/// The chunks of a plain text.
pub open spec fn plain_text_chunks(path: Seq<char>, text: Seq<char>) -> Seq<ChunkView> {
    let b = encode_utf8(text);
    if b.len() == 0 {
        seq![whole_text_chunk(path, text)]
    } else {
        piece_chunks(b, pieces(b, 0, b.len() as int), path)
    }
}

fn push_whole_text(path: &str, text: &str, out: &mut Vec<IndexedChunk>)
    requires
        old(out)@.len() == 0,
    ensures
        chunk_views(final(out)@) == seq![whole_text_chunk(path@, text@)],
{
    out.push(
        IndexedChunk {
            start_line: 1,
            end_line: count_lines(text),
            content: text.to_owned(),
            context_path: path.to_owned(),
        },
    );
    proof {
        assert(chunk_views(out@) =~= seq![whole_text_chunk(path@, text@)]);
    }
}

fn chunk_plain_text_sections(path: &str, text: &str) -> (r: Vec<IndexedChunk>)
    ensures
        chunk_views(r@) == plain_text_chunks(path@, text@),
{
    let mut out: Vec<IndexedChunk> = Vec::new();
    let n = byte_len(text);
    proof {
        lemma_str_bytes(text);
    }
    if n == 0 {
        push_whole_text(path, text, &mut out);
    } else {
        split_plain_text_in_range(text, 0, n, path, &mut out);
        proof {
            let all = plain_text_chunks(path@, text@);
            assert(chunk_views(Seq::<IndexedChunk>::empty()) + all =~= all);
        }
    }
    out
}

// ---------------------------------------------------------------------------
// Markdown
// ---------------------------------------------------------------------------

/// How many `#` a text begins with.
pub open spec fn leading_hashes(s: Seq<char>) -> int
    decreases s.len(),
{
    if s.len() > 0 && s[0] == '#' {
        1 + leading_hashes(s.drop_first())
    } else {
        0
    }
}

/// The level and the title of a heading: one to six `#` at the start of the line, and a title.
pub open spec fn heading(line: Seq<char>) -> Option<(int, Seq<char>)> {
    let h = leading_hashes(line);
    let title = trim(line.skip(h));
    if 1 <= h <= 6 && title.len() > 0 {
        Some((h, title))
    } else {
        None
    }
}

/// The title of the section that a line opens, if it does; the line may be indented.
pub open spec fn section_title(line: Seq<char>) -> Option<Seq<char>> {
    match heading(trim_start(line)) {
        Some((_, title)) => Some(title),
        None => None,
    }
}

/// The chunks of the section `b[start..end]`: none for a blank one, one for a section within the
/// cap, and pieces of plain text for a larger one.
pub open spec fn section_chunks(
    path: Seq<char>,
    b: Seq<u8>,
    start: int,
    end: int,
    title: Seq<char>,
) -> Seq<ChunkView> {
    let context = path + seq!['#'] + title;
    if is_blank(decode_utf8(b.subrange(start, end))) {
        Seq::empty()
    } else if end - start <= MARKDOWN_SECTION_MAX_BYTES {
        seq![chunk_of_range(b, start, end, context)]
    } else {
        piece_chunks(b, pieces(b, start, end), context)
    }
}

/// The chunks of what is left of a Markdown text: the lines from `line_start` on, and the section
/// with the title `title` that has been open since `section_start`.
pub open spec fn markdown_chunks_from(
    path: Seq<char>,
    b: Seq<u8>,
    line_start: int,
    section_start: int,
    title: Seq<char>,
) -> Seq<ChunkView>
    decreases b.len() - line_start,
    when valid_utf8(b) && 0 <= line_start
    via markdown_chunks_decreases
{
    if line_start >= b.len() {
        section_chunks(path, b, section_start, b.len() as int, title)
    } else {
        let next = line_end(b, line_start);
        match section_title(decode_utf8(b.subrange(line_start, next))) {
            Some(t) => section_chunks(path, b, section_start, line_start, title)
                + markdown_chunks_from(path, b, next, line_start, t),
            None => markdown_chunks_from(path, b, next, section_start, title),
        }
    }
}

#[via_fn]
proof fn markdown_chunks_decreases(
    path: Seq<char>,
    b: Seq<u8>,
    line_start: int,
    section_start: int,
    title: Seq<char>,
) {
    if line_start < b.len() {
        lemma_line_end(b, line_start);
    }
}

/// The chunks of a Markdown text. What comes before the first heading is a section of its own,
/// titled `document`; a text without any chunk is kept whole.
pub open spec fn markdown_chunks(path: Seq<char>, text: Seq<char>) -> Seq<ChunkView> {
    let chunks = markdown_chunks_from(path, encode_utf8(text), 0, 0, "document"@);
    if chunks.len() == 0 {
        seq![whole_text_chunk(path, text)]
    } else {
        chunks
    }
}

fn count_hashes(v: &Vec<char>, from: usize) -> (h: usize)
    requires
        from <= v@.len(),
    ensures
        h == leading_hashes(v@.skip(from as int)),
        from + h <= v@.len(),
{
    let mut i: usize = from;
    while i < v.len() && v[i] == '#'
        invariant
            from <= i <= v@.len(),
            leading_hashes(v@.skip(from as int)) == (i - from) + leading_hashes(v@.skip(i as int)),
        decreases v@.len() - i,
    {
        proof {
            assert(v@.skip(i as int).drop_first() =~= v@.skip(i + 1));
        }
        i += 1;
    }
    i - from
}

fn heading_from(v: &Vec<char>, from: usize) -> (r: Option<(u8, String)>)
    requires
        from <= v@.len(),
    ensures
        match r {
            Some((level, title)) => heading(v@.skip(from as int)) == Some(
                (level as int, title@),
            ),
            None => heading(v@.skip(from as int)) is None,
        },
{
    let h = count_hashes(v, from);
    if h == 0 || h > 6 {
        return None;
    }
    let n = v.len();
    let ghost line = v@.skip(from as int);
    let lo = skip_white_space(v, from + h);
    let hi = drop_white_space(v, lo, n);
    proof {
        assert(line.skip(h as int) =~= v@.skip(from + h));
        assert(v@.skip(lo as int) =~= v@.subrange(lo as int, v@.len() as int));
        assert(trim(line.skip(h as int)) == v@.subrange(lo as int, hi as int));
    }
    if lo == hi {
        return None;
    }
    Some((h as u8, from_chars(v, lo, hi)))
}

/// The level and the title of a Markdown heading line.
pub fn markdown_heading(line: &str) -> (r: Option<(u8, String)>)
    ensures
        match r {
            Some((level, title)) => heading(line@) == Some((level as int, title@)),
            None => heading(line@) is None,
        },
{
    let v = to_chars(line);
    proof {
        assert(v@.skip(0) =~= v@);
    }
    heading_from(&v, 0)
}

fn opened_section(line: &str) -> (r: Option<String>)
    ensures
        match r {
            Some(title) => section_title(line@) == Some(title@),
            None => section_title(line@) is None,
        },
{
    let v = to_chars(line);
    proof {
        assert(v@.skip(0) =~= v@);
    }
    let from = skip_white_space(&v, 0);
    match heading_from(&v, from) {
        Some((_, title)) => Some(title),
        None => None,
    }
}

/// Pushes the chunks of the section `text[start..end]`.
fn push_markdown_section(
    path: &str,
    text: &str,
    start: usize,
    end: usize,
    title: &str,
    out: &mut Vec<IndexedChunk>,
)
    requires
        text_range(text.spec_bytes(), start as int, end as int),
    ensures
        chunk_views(final(out)@) == chunk_views(old(out)@) + section_chunks(
            path@,
            text.spec_bytes(),
            start as int,
            end as int,
            title@,
        ),
{
    let ghost before = chunk_views(out@);
    let section = slice_text(text, start, end);
    if blank(section) {
        proof {
            assert(before + Seq::empty() =~= before);
        }
        return;
    }
    let context = join3(path, "#", title);
    proof {
        reveal_strlit("#");
        assert("#"@ =~= seq!['#']);
    }
    if end - start <= MARKDOWN_SECTION_MAX_BYTES {
        push_range(text, start, end, &context, out);
        proof {
            let c = chunk_of_range(text.spec_bytes(), start as int, end as int, context@);
            assert(before + seq![c] =~= before.push(c));
        }
    } else {
        split_plain_text_in_range(text, start, end, &context, out);
    }
}

fn chunk_markdown_sections(path: &str, text: &str) -> (r: Vec<IndexedChunk>)
    ensures
        chunk_views(r@) == markdown_chunks(path@, text@),
{
    let mut out: Vec<IndexedChunk> = Vec::new();
    let n = byte_len(text);
    let ghost b = text.spec_bytes();
    let mut line_start: usize = 0;
    let mut section_start: usize = 0;
    let mut title: String = "document".to_owned();
    let ghost all = markdown_chunks_from(path@, b, 0, 0, "document"@);
    proof {
        lemma_str_bytes(text);
        assert(chunk_views(out@) + all =~= all);
    }
    while line_start < n
        invariant
            b == text.spec_bytes(),
            n == b.len(),
            text_range(b, section_start as int, line_start as int),
            all == chunk_views(out@) + markdown_chunks_from(
                path@,
                b,
                line_start as int,
                section_start as int,
                title@,
            ),
        decreases n - line_start,
    {
        let next = find_line_end(text, line_start);
        let line = slice_text(text, line_start, next);
        let ghost before = chunk_views(out@);
        match opened_section(line) {
            Some(t) => {
                push_markdown_section(path, text, section_start, line_start, &title, &mut out);
                proof {
                    let s = section_chunks(
                        path@,
                        b,
                        section_start as int,
                        line_start as int,
                        title@,
                    );
                    let rest = markdown_chunks_from(path@, b, next as int, line_start as int, t@);
                    assert(before + (s + rest) =~= before + s + rest);
                }
                section_start = line_start;
                title = t;
            },
            None => {},
        }
        line_start = next;
    }
    push_markdown_section(path, text, section_start, n, &title, &mut out);
    assert(chunk_views(out@) == all);
    if out.len() == 0 {
        push_whole_text(path, text, &mut out);
    }
    out
}

/// The components of a path that count: neither empty nor a single dot.
pub open spec fn path_components(path: Seq<char>) -> Seq<Seq<char>> {
    split_on(path, '/').filter(|c: Seq<char>| c.len() > 0 && c != seq!['.'])
}

/// What follows the last dot of a file name, provided that the name does not begin with that dot.
pub open spec fn name_extension(name: Seq<char>) -> Option<Seq<char>> {
    let parts = split_on(name, '.');
    if parts.len() == 1 || (parts.len() == 2 && parts[0].len() == 0) {
        None
    } else {
        Some(parts.last())
    }
}

/// The extension of the file that a path names. A path that ends in `..` names none.
pub open spec fn path_extension(path: Seq<char>) -> Option<Seq<char>> {
    let cs = path_components(path);
    if cs.len() == 0 || cs.last() == seq!['.', '.'] {
        None
    } else {
        name_extension(cs.last())
    }
}

/// The path of a Markdown file, by its extension.
pub open spec fn is_markdown(path: Seq<char>) -> bool {
    path_extension(path) matches Some(ext) && (ext == "md"@ || ext == "markdown"@ || ext
        == "mdx"@)
}

proof fn lemma_split_not_empty(s: Seq<char>, sep: char)
    ensures
        split_on(s, sep).len() >= 1,
    decreases s.len(),
{
    if s.len() > 0 {
        lemma_split_not_empty(s.drop_last(), sep);
    }
}

pub fn last_component(path: &str) -> (r: Option<String>)
    ensures
        match r {
            Some(c) => path_components(path@).len() > 0 && c@ == path_components(path@).last(),
            None => path_components(path@).len() == 0,
        },
{
    let mut parts = split_text(path, '/');
    let ghost whole = split_on(path@, '/');
    let ghost keep = |c: Seq<char>| c.len() > 0 && c != seq!['.'];
    proof {
        assert(texts(parts@).len() == whole.len());
        reveal_strlit(".");
        assert("."@ =~= seq!['.']);
        assert(whole.skip(whole.len() as int) =~= Seq::empty());
        reveal(Seq::filter);
        assert(texts(parts@) =~= whole.take(parts@.len() as int));
    }
    while parts.len() > 0
        invariant
            whole == split_on(path@, '/'),
            keep == (|c: Seq<char>| c.len() > 0 && c != seq!['.']),
            "."@ == seq!['.'],
            parts@.len() <= whole.len(),
            texts(parts@) == whole.take(parts@.len() as int),
            whole.filter(keep) == texts(parts@).filter(keep),
        decreases parts@.len(),
    {
        let ghost now = texts(parts@);
        let ghost m = parts@.len() as int;
        let last = parts.pop().unwrap();
        proof {
            reveal(Seq::filter);
            assert(now.last() == last@);
            assert(now.drop_last() =~= texts(parts@));
            assert(texts(parts@) =~= whole.take(parts@.len() as int));
        }
        if !last.as_str().is_empty() && !same_text(&last, ".") {
            return Some(last);
        }
    }
    proof {
        reveal(Seq::filter);
    }
    None
}

fn extension_of_name(name: &str) -> (r: Option<String>)
    ensures
        match r {
            Some(e) => name_extension(name@) == Some(e@),
            None => name_extension(name@) is None,
        },
{
    let mut parts = split_text(name, '.');
    let ghost whole = split_on(name@, '.');
    proof {
        lemma_split_not_empty(name@, '.');
        assert(texts(parts@).len() == whole.len());
        assert(texts(parts@)[0] == parts@[0]@);
        assert(texts(parts@).last() == parts@.last()@);
    }
    if parts.len() == 1 || (parts.len() == 2 && parts[0].as_str().is_empty()) {
        None
    } else {
        parts.pop()
    }
}

fn is_markdown_path(path: &str) -> (r: bool)
    ensures
        r == is_markdown(path@),
{
    match last_component(path) {
        Some(name) => {
            proof {
                reveal_strlit("..");
                assert(".."@ =~= seq!['.', '.']);
            }
            if same_text(&name, "..") {
                return false;
            }
            match extension_of_name(&name) {
                Some(ext) => same_text(&ext, "md") || same_text(&ext, "markdown") || same_text(
                    &ext,
                    "mdx",
                ),
                None => false,
            }
        },
        None => false,
    }
}

// ---------------------------------------------------------------------------
// All of a text, or its two ends
// ---------------------------------------------------------------------------

/// The chunks of a text.
pub open spec fn text_chunks(path: Seq<char>, text: Seq<char>) -> Seq<ChunkView> {
    if is_markdown(path) {
        markdown_chunks(path, text)
    } else {
        plain_text_chunks(path, text)
    }
}

/// Cuts a text into chunks: Markdown by its sections, any other text by its size.
pub fn chunk_text(path: &str, text: &str) -> (r: Vec<IndexedChunk>)
    ensures
        chunk_views(r@) == text_chunks(path@, text@),
{
    if is_markdown_path(path) {
        chunk_markdown_sections(path, text)
    } else {
        chunk_plain_text_sections(path, text)
    }
}

/// The one chunk that holds the whole of `text`, marked as a headline.
pub open spec fn headline_chunk(path: Seq<char>, text: Seq<char>) -> ChunkView {
    let b = encode_utf8(text);
    ChunkView {
        start_line: line_span(b, 0, b.len() as int).0,
        end_line: line_span(b, 0, b.len() as int).1,
        content: text,
        context_path: path + "#headline_only"@,
    }
}

/// The bytes that a headline takes from each end of a text.
pub open spec fn headline_each(each_max: int) -> int {
    if each_max < HEADLINE_MIN_EACH_BYTES {
        HEADLINE_MIN_EACH_BYTES as int
    } else {
        each_max
    }
}

/// Head and tail: side by side where the two make up the whole text, else with a mark of omission
/// between them.
pub open spec fn headline_text(
    total_len: int,
    head: Seq<char>,
    tail: Seq<char>,
    each_max: int,
) -> Seq<char> {
    if total_len <= 2 * headline_each(each_max) {
        head + tail
    } else {
        head + "\n…\n"@ + tail
    }
}

fn headline_of(path: &str, content: String) -> (r: IndexedChunk)
    ensures
        r@ == headline_chunk(path@, content@),
{
    let n = byte_len(content.as_str());
    let (start_line, end_line) = line_numbers_for_offset_range(content.as_str(), 0, n);
    IndexedChunk { start_line, end_line, content, context_path: join2(path, "#headline_only") }
}

fn fits_in_two(total_len: usize, each_max: usize) -> (r: bool)
    ensures
        r == (total_len <= 2 * headline_each(each_max as int)),
{
    let each: usize = if each_max < HEADLINE_MIN_EACH_BYTES {
        HEADLINE_MIN_EACH_BYTES
    } else {
        each_max
    };
    total_len <= each || total_len - each <= each
}

/// The headline of a text of `total_len` bytes of which only the two ends are at hand.
pub fn headline_only_chunk_bounded(
    path: &str,
    total_len: usize,
    head: &str,
    tail: &str,
    each_max: usize,
) -> (r: IndexedChunk)
    ensures
        r@ == headline_chunk(
            path@,
            headline_text(total_len as int, head@, tail@, each_max as int),
        ),
{
    let content = if fits_in_two(total_len, each_max) {
        join2(head, tail)
    } else {
        join3(head, "\n…\n", tail)
    };
    headline_of(path, content)
}

/// The headline of a text: all of it where it is short, else its two ends, cut at character
/// boundaries.
pub open spec fn headline_of_text(text: Seq<char>, each_max: int) -> Seq<char> {
    let b = encode_utf8(text);
    let each = headline_each(each_max);
    if b.len() <= 2 * each {
        text
    } else {
        headline_text(
            b.len() as int,
            decode_utf8(b.subrange(0, boundary_at_or_below(b, each))),
            decode_utf8(b.subrange(boundary_at_or_below(b, b.len() - each), b.len() as int)),
            each_max,
        )
    }
}

/// A single chunk for a text that is too large to be cut into chunks.
pub fn headline_only_chunk(path: &str, text: &str, each_max: usize) -> (r: IndexedChunk)
    ensures
        r@ == headline_chunk(path@, headline_of_text(text@, each_max as int)),
{
    let n = byte_len(text);
    if fits_in_two(n, each_max) {
        return headline_of(path, text.to_owned());
    }
    let each: usize = if each_max < HEADLINE_MIN_EACH_BYTES {
        HEADLINE_MIN_EACH_BYTES
    } else {
        each_max
    };
    proof {
        lemma_str_bytes(text);
    }
    let head = slice_text(text, 0, floor_char_boundary(text, each));
    let tail = slice_text(text, floor_char_boundary(text, n - each), n);
    headline_only_chunk_bounded(path, n, head, tail, each_max)
}

// ---------------------------------------------------------------------------
// What holds of all chunks
// ---------------------------------------------------------------------------

/// No text is without a chunk.
pub proof fn lemma_text_has_chunks(path: Seq<char>, text: Seq<char>)
    ensures
        text_chunks(path, text).len() > 0,
{
    vstd::utf8::encode_utf8_valid_utf8(text);
    let b = encode_utf8(text);
    is_char_boundary_start_end_of_seq(b);
    if !is_markdown(path) && b.len() > 0 {
        lemma_pieces_cover(b, 0, b.len() as int);
    }
}

/// A chunk of plain text keeps the size bound, and its lines are in order.
pub proof fn lemma_plain_text_chunks_bounded(path: Seq<char>, text: Seq<char>, i: int)
    requires
        0 <= i < plain_text_chunks(path, text).len(),
    ensures
        ({
            let c = plain_text_chunks(path, text)[i];
            &&& encode_utf8(c.content).len() <= PLAIN_TEXT_MAX_CHUNK_BYTES
            &&& c.start_line >= 1
            &&& encode_utf8(text).len() > 0 ==> c.start_line <= c.end_line
            &&& c.context_path == path
        }),
{
    vstd::utf8::encode_utf8_valid_utf8(text);
    let b = encode_utf8(text);
    is_char_boundary_start_end_of_seq(b);
    if b.len() > 0 {
        lemma_pieces_cover(b, 0, b.len() as int);
        let p = pieces(b, 0, b.len() as int)[i];
        lemma_range_chunk(b, p.0, p.1, path);
    }
}

/// A chunk of a range holds the bytes of the range, and its lines are in order.
proof fn lemma_range_chunk(b: Seq<u8>, start: int, end: int, context: Seq<char>)
    requires
        text_range(b, start, end),
        start < end,
    ensures
        encode_utf8(chunk_of_range(b, start, end, context).content) == b.subrange(start, end),
        1 <= chunk_of_range(b, start, end, context).start_line <= chunk_of_range(
            b,
            start,
            end,
            context,
        ).end_line,
{
    vstd::utf8::valid_utf8_split(b, start);
    let t = b.subrange(start, b.len() as int);
    if end < b.len() {
        vstd::utf8::is_char_boundary_iff_not_is_continuation_byte(b, end);
        vstd::utf8::is_char_boundary_iff_not_is_continuation_byte(t, end - start);
        assert(t[end - start] == b[end]);
    } else {
        is_char_boundary_start_end_of_seq(t);
    }
    vstd::utf8::valid_utf8_split(t, end - start);
    assert(t.subrange(0, end - start) =~= b.subrange(start, end));
    vstd::utf8::decode_utf8_encode_utf8(b.subrange(start, end));
    lemma_line_span_inside(b, start, end);
}

/// A chunk of Markdown is within the cap for sections, whatever the sections are.
pub open spec fn within_section_cap(c: ChunkView) -> bool {
    &&& encode_utf8(c.content).len() <= MARKDOWN_SECTION_MAX_BYTES
    &&& 1 <= c.start_line <= c.end_line
}

proof fn lemma_section_chunks_bounded(
    path: Seq<char>,
    b: Seq<u8>,
    start: int,
    end: int,
    title: Seq<char>,
)
    requires
        text_range(b, start, end),
    ensures
        forall|i: int|
            0 <= i < section_chunks(path, b, start, end, title).len() ==> within_section_cap(
                #[trigger] section_chunks(path, b, start, end, title)[i],
            ) && section_chunks(path, b, start, end, title)[i].context_path == path + seq!['#']
                + title,
{
    let s = section_chunks(path, b, start, end, title);
    let context = path + seq!['#'] + title;
    if start == end {
        vstd::utf8::is_char_boundary_start_end_of_seq(b);
        assert(b.subrange(start, end) =~= Seq::<u8>::empty());
    } else if !is_blank(decode_utf8(b.subrange(start, end))) {
        if end - start <= MARKDOWN_SECTION_MAX_BYTES {
            lemma_range_chunk(b, start, end, context);
        } else {
            lemma_pieces_cover(b, start, end);
            let p = pieces(b, start, end);
            assert forall|i: int| 0 <= i < s.len() implies within_section_cap(#[trigger] s[i])
                && s[i].context_path == context by {
                lemma_range_chunk(b, p[i].0, p[i].1, context);
            }
        }
    }
}

proof fn lemma_markdown_from_bounded(
    path: Seq<char>,
    b: Seq<u8>,
    line_start: int,
    section_start: int,
    title: Seq<char>,
)
    requires
        text_range(b, section_start, line_start),
    ensures
        forall|i: int|
            0 <= i < markdown_chunks_from(path, b, line_start, section_start, title).len()
                ==> within_section_cap(
                #[trigger] markdown_chunks_from(path, b, line_start, section_start, title)[i],
            ) && crate::text::has_prefix(
                markdown_chunks_from(path, b, line_start, section_start, title)[i].context_path,
                path + seq!['#'],
            ),
    decreases b.len() - line_start,
{
    let all = markdown_chunks_from(path, b, line_start, section_start, title);
    is_char_boundary_start_end_of_seq(b);
    if line_start >= b.len() {
        lemma_section_chunks_bounded(path, b, section_start, b.len() as int, title);
        assert(all == section_chunks(path, b, section_start, b.len() as int, title));
        assert forall|i: int| 0 <= i < all.len() implies within_section_cap(#[trigger] all[i])
            && crate::text::has_prefix(all[i].context_path, path + seq!['#']) by {
            assert((path + seq!['#'] + title).take((path + seq!['#']).len() as int) =~= path
                + seq!['#']);
        }
    } else {
        lemma_line_end(b, line_start);
        let next = line_end(b, line_start);
        match section_title(decode_utf8(b.subrange(line_start, next))) {
            Some(t) => {
                lemma_section_chunks_bounded(path, b, section_start, line_start, title);
                lemma_markdown_from_bounded(path, b, next, line_start, t);
                let s = section_chunks(path, b, section_start, line_start, title);
                let rest = markdown_chunks_from(path, b, next, line_start, t);
                assert(all == s + rest);
                assert forall|i: int| 0 <= i < all.len() implies within_section_cap(
                    #[trigger] all[i],
                ) && crate::text::has_prefix(all[i].context_path, path + seq!['#']) by {
                    if i < s.len() {
                        assert(all[i] == s[i]);
                        assert((path + seq!['#'] + title).take((path + seq!['#']).len() as int)
                            =~= path + seq!['#']);
                    } else {
                        assert(all[i] == rest[i - s.len()]);
                    }
                }
            },
            None => {
                lemma_markdown_from_bounded(path, b, next, section_start, title);
                assert(all == markdown_chunks_from(path, b, next, section_start, title));
            },
        }
    }
}

/// The bytes of chunks, one behind the other.
pub open spec fn chunk_bytes(chunks: Seq<ChunkView>) -> Seq<u8>
    decreases chunks.len(),
{
    if chunks.len() == 0 {
        Seq::empty()
    } else {
        chunk_bytes(chunks.drop_last()) + encode_utf8(chunks.last().content)
    }
}

proof fn lemma_chunk_bytes_join(a: Seq<ChunkView>, c: Seq<ChunkView>)
    ensures
        chunk_bytes(a + c) == chunk_bytes(a) + chunk_bytes(c),
    decreases c.len(),
{
    if c.len() == 0 {
        assert(a + c =~= a);
        assert(chunk_bytes(a) + Seq::<u8>::empty() =~= chunk_bytes(a));
    } else {
        assert((a + c).drop_last() =~= a + c.drop_last());
        assert((a + c).last() == c.last());
        lemma_chunk_bytes_join(a, c.drop_last());
        assert(chunk_bytes(a + c) =~= chunk_bytes(a) + chunk_bytes(c));
    }
}

/// The text of a range is that of its two parts.
proof fn lemma_range_text_join(b: Seq<u8>, start: int, mid: int, end: int)
    requires
        text_range(b, start, mid),
        text_range(b, mid, end),
    ensures
        decode_utf8(b.subrange(start, end)) == decode_utf8(b.subrange(start, mid)) + decode_utf8(
            b.subrange(mid, end),
        ),
{
    lemma_range_is_text(b, start, end);
    let t = b.subrange(start, end);
    if mid < end {
        vstd::utf8::is_char_boundary_iff_not_is_continuation_byte(b, mid);
        vstd::utf8::is_char_boundary_iff_not_is_continuation_byte(t, mid - start);
        assert(t[mid - start] == b[mid]);
    } else {
        is_char_boundary_start_end_of_seq(t);
    }
    vstd::utf8::decode_utf8_split(t, mid - start);
    assert(t.subrange(0, mid - start) =~= b.subrange(start, mid));
    assert(t.subrange(mid - start, t.len() as int) =~= b.subrange(mid, end));
}

proof fn lemma_range_is_text(b: Seq<u8>, start: int, end: int)
    requires
        text_range(b, start, end),
    ensures
        valid_utf8(b.subrange(start, end)),
        encode_utf8(decode_utf8(b.subrange(start, end))) == b.subrange(start, end),
{
    vstd::utf8::valid_utf8_split(b, start);
    let t = b.subrange(start, b.len() as int);
    if end < b.len() {
        vstd::utf8::is_char_boundary_iff_not_is_continuation_byte(b, end);
        if start < end {
            vstd::utf8::is_char_boundary_iff_not_is_continuation_byte(t, end - start);
            assert(t[end - start] == b[end]);
        } else {
            is_char_boundary_start_end_of_seq(t);
        }
    } else {
        is_char_boundary_start_end_of_seq(t);
    }
    vstd::utf8::valid_utf8_split(t, end - start);
    assert(t.subrange(0, end - start) =~= b.subrange(start, end));
    vstd::utf8::decode_utf8_encode_utf8(b.subrange(start, end));
}

/// A line that opens a section is not blank.
proof fn lemma_heading_is_visible(line: Seq<char>)
    requires
        section_title(line) is Some,
    ensures
        !is_blank(line),
    decreases line.len(),
{
    if line.len() > 0 && is_white_space(line[0]) {
        let rest = line.drop_first();
        assert(trim_start(line) == trim_start(rest));
        lemma_heading_is_visible(rest);
        let i = choose|i: int| 0 <= i < rest.len() && !is_white_space(#[trigger] rest[i]);
        assert(line[i + 1] == rest[i]);
    } else {
        assert(trim_start(line) == line);
        assert(line[0] == '#');
        assert(!is_white_space(line[0]));
    }
}

/// The chunks of a section that is not blank: there are some, and within the cap for a section they
/// hold its bytes.
proof fn lemma_section_bytes(path: Seq<char>, b: Seq<u8>, start: int, end: int, title: Seq<char>)
    requires
        text_range(b, start, end),
        !is_blank(decode_utf8(b.subrange(start, end))),
    ensures
        section_chunks(path, b, start, end, title).len() > 0,
        end - start <= MARKDOWN_SECTION_MAX_BYTES ==> chunk_bytes(
            section_chunks(path, b, start, end, title),
        ) == b.subrange(start, end),
{
    let s = section_chunks(path, b, start, end, title);
    if end - start <= MARKDOWN_SECTION_MAX_BYTES {
        lemma_range_is_text(b, start, end);
        assert(s.drop_last() =~= Seq::<ChunkView>::empty());
        assert(chunk_bytes(s.drop_last()) =~= Seq::<u8>::empty());
        assert(chunk_bytes(s) =~= b.subrange(start, end));
    } else {
        lemma_pieces_cover(b, start, end);
    }
}

/// The chunks from an open section on that is not blank hold everything from its beginning on.
proof fn lemma_open_section_bytes(
    path: Seq<char>,
    b: Seq<u8>,
    line_start: int,
    section_start: int,
    title: Seq<char>,
)
    requires
        text_range(b, section_start, line_start),
        !is_blank(decode_utf8(b.subrange(section_start, line_start))),
    ensures
        markdown_chunks_from(path, b, line_start, section_start, title).len() > 0,
        b.len() <= MARKDOWN_SECTION_MAX_BYTES ==> chunk_bytes(
            markdown_chunks_from(path, b, line_start, section_start, title),
        ) == b.skip(section_start),
    decreases b.len() - line_start,
{
    is_char_boundary_start_end_of_seq(b);
    if line_start >= b.len() {
        lemma_section_bytes(path, b, section_start, b.len() as int, title);
        assert(b.subrange(section_start, b.len() as int) =~= b.skip(section_start));
    } else {
        lemma_line_end(b, line_start);
        let next = line_end(b, line_start);
        let line = decode_utf8(b.subrange(line_start, next));
        match section_title(line) {
            Some(t) => {
                lemma_heading_is_visible(line);
                lemma_section_bytes(path, b, section_start, line_start, title);
                lemma_open_section_bytes(path, b, next, line_start, t);
                let s = section_chunks(path, b, section_start, line_start, title);
                let rest = markdown_chunks_from(path, b, next, line_start, t);
                lemma_chunk_bytes_join(s, rest);
                assert(b.subrange(section_start, line_start) + b.skip(line_start) =~= b.skip(
                    section_start,
                ));
            },
            None => {
                lemma_range_text_join(b, section_start, line_start, next);
                let head = decode_utf8(b.subrange(section_start, line_start));
                let i = choose|i: int| 0 <= i < head.len() && !is_white_space(#[trigger] head[i]);
                assert(decode_utf8(b.subrange(section_start, next))[i] == head[i]);
                lemma_open_section_bytes(path, b, next, section_start, title);
            },
        }
    }
}

/// Where the first line begins, from `line_start` on, that opens a section; the end of the text
/// where none does.
pub open spec fn first_heading(b: Seq<u8>, line_start: int) -> int
    decreases b.len() - line_start,
    when valid_utf8(b) && 0 <= line_start
    via first_heading_decreases
{
    if line_start >= b.len() {
        b.len() as int
    } else {
        let next = line_end(b, line_start);
        match section_title(decode_utf8(b.subrange(line_start, next))) {
            Some(_) => line_start,
            None => first_heading(b, next),
        }
    }
}

#[via_fn]
proof fn first_heading_decreases(b: Seq<u8>, line_start: int) {
    if line_start < b.len() {
        lemma_line_end(b, line_start);
    }
}

proof fn lemma_from_the_beginning(path: Seq<char>, b: Seq<u8>, line_start: int, title: Seq<char>)
    requires
        text_range(b, 0, line_start),
        !is_blank(decode_utf8(b)),
    ensures
        ({
            let chunks = markdown_chunks_from(path, b, line_start, 0, title);
            let first = first_heading(b, line_start);
            &&& chunks.len() > 0
            &&& line_start <= first <= b.len()
            &&& b.len() <= MARKDOWN_SECTION_MAX_BYTES ==> chunk_bytes(chunks) == if is_blank(
                decode_utf8(b.subrange(0, first)),
            ) {
                b.skip(first)
            } else {
                b
            }
        }),
    decreases b.len() - line_start,
{
    is_char_boundary_start_end_of_seq(b);
    assert(b.skip(0) =~= b);
    assert(b.subrange(0, b.len() as int) =~= b);
    if line_start >= b.len() {
        lemma_section_bytes(path, b, 0, b.len() as int, title);
    } else {
        lemma_line_end(b, line_start);
        let next = line_end(b, line_start);
        let line = decode_utf8(b.subrange(line_start, next));
        match section_title(line) {
            Some(t) => {
                lemma_heading_is_visible(line);
                lemma_open_section_bytes(path, b, next, line_start, t);
                let s = section_chunks(path, b, 0, line_start, title);
                let rest = markdown_chunks_from(path, b, next, line_start, t);
                lemma_chunk_bytes_join(s, rest);
                if is_blank(decode_utf8(b.subrange(0, line_start))) {
                    assert(s + rest =~= rest);
                } else {
                    lemma_section_bytes(path, b, 0, line_start, title);
                    assert(b.subrange(0, line_start) + b.skip(line_start) =~= b);
                }
            },
            None => {
                lemma_from_the_beginning(path, b, next, title);
            },
        }
    }
}

/// The chunks of a Markdown text of at most `MARKDOWN_SECTION_MAX_BYTES` bytes that is not blank
/// are the text, cut but otherwise unchanged: all of it, or all from the first heading on where
/// only white space is in front of that.
pub proof fn lemma_markdown_chunks_cover(path: Seq<char>, text: Seq<char>)
    requires
        !is_blank(text),
        encode_utf8(text).len() <= MARKDOWN_SECTION_MAX_BYTES,
    ensures
        ({
            let b = encode_utf8(text);
            let first = first_heading(b, 0);
            &&& 0 <= first <= b.len()
            &&& chunk_bytes(markdown_chunks(path, text)) == if is_blank(
                decode_utf8(b.subrange(0, first)),
            ) {
                b.skip(first)
            } else {
                b
            }
        }),
{
    let b = encode_utf8(text);
    vstd::utf8::encode_utf8_valid_utf8(text);
    vstd::utf8::encode_utf8_decode_utf8(text);
    is_char_boundary_start_end_of_seq(b);
    lemma_from_the_beginning(path, b, 0, "document"@);
}

/// A Markdown text that is not blank yields chunks of at most `MARKDOWN_SECTION_MAX_BYTES` bytes,
/// with their lines in order, each placed in a section of the file.
pub proof fn lemma_markdown_chunks_bounded(path: Seq<char>, text: Seq<char>, i: int)
    requires
        0 <= i < markdown_chunks(path, text).len(),
        !is_blank(text),
    ensures
        within_section_cap(markdown_chunks(path, text)[i]),
        crate::text::has_prefix(markdown_chunks(path, text)[i].context_path, path + seq!['#']),
{
    vstd::utf8::encode_utf8_valid_utf8(text);
    vstd::utf8::encode_utf8_decode_utf8(text);
    is_char_boundary_start_end_of_seq(encode_utf8(text));
    lemma_from_the_beginning(path, encode_utf8(text), 0, "document"@);
    lemma_markdown_from_bounded(path, encode_utf8(text), 0, 0, "document"@);
}

/// The chunk is the part `b[start..end]` of a text.
pub open spec fn is_part(c: ChunkView, b: Seq<u8>, start: int, end: int) -> bool {
    encode_utf8(c.content) == b.subrange(start, end)
}

/// The byte at `k` is in one of the chunks.
pub open spec fn is_in_chunk(chunks: Seq<ChunkView>, b: Seq<u8>, k: int) -> bool {
    exists|i: int, start: int, end: int|
        0 <= i < chunks.len() && 0 <= start <= k < end <= b.len() && #[trigger] is_part(
            chunks[i],
            b,
            start,
            end,
        )
}

/// A byte of a range is in one of its pieces.
proof fn lemma_piece_at(b: Seq<u8>, start: int, range_end: int, k: int) -> (i: int)
    requires
        text_range(b, start, range_end),
        start <= k < range_end,
    ensures
        ({
            let p = pieces(b, start, range_end);
            &&& 0 <= i < p.len()
            &&& p[i].0 <= k < p[i].1
        }),
{
    lemma_pieces_cover(b, start, range_end);
    let p = pieces(b, start, range_end);
    lemma_piece_from(p, k, 0)
}

proof fn lemma_piece_from(p: Seq<(int, int)>, k: int, from: int) -> (i: int)
    requires
        0 <= from < p.len(),
        p[from].0 <= k < p.last().1,
        forall|i: int| 0 < i < p.len() ==> (#[trigger] p[i]).0 < p[i - 1].1,
    ensures
        0 <= i < p.len(),
        p[i].0 <= k < p[i].1,
    decreases p.len() - from,
{
    if k < p[from].1 {
        from
    } else {
        assert(p[from + 1].0 < p[from + 1 - 1].1);
        lemma_piece_from(p, k, from + 1)
    }
}

proof fn lemma_pieces_hold(b: Seq<u8>, start: int, end: int, context: Seq<char>, k: int)
    requires
        text_range(b, start, end),
        start <= k < end,
    ensures
        is_in_chunk(piece_chunks(b, pieces(b, start, end), context), b, k),
{
    lemma_pieces_cover(b, start, end);
    let p = pieces(b, start, end);
    let i = lemma_piece_at(b, start, end, k);
    lemma_range_chunk(b, p[i].0, p[i].1, context);
    let chunks = piece_chunks(b, p, context);
    assert(is_part(chunks[i], b, p[i].0, p[i].1));
}

proof fn lemma_section_holds(
    path: Seq<char>,
    b: Seq<u8>,
    start: int,
    end: int,
    title: Seq<char>,
    k: int,
)
    requires
        text_range(b, start, end),
        !is_blank(decode_utf8(b.subrange(start, end))),
        start <= k < end,
    ensures
        is_in_chunk(section_chunks(path, b, start, end, title), b, k),
{
    let s = section_chunks(path, b, start, end, title);
    let context = path + seq!['#'] + title;
    if end - start <= MARKDOWN_SECTION_MAX_BYTES {
        lemma_range_chunk(b, start, end, context);
        assert(is_part(s[0], b, start, end));
    } else {
        lemma_pieces_hold(b, start, end, context, k);
    }
}

proof fn lemma_in_either(a: Seq<ChunkView>, c: Seq<ChunkView>, b: Seq<u8>, k: int)
    requires
        is_in_chunk(a, b, k) || is_in_chunk(c, b, k),
    ensures
        is_in_chunk(a + c, b, k),
{
    if is_in_chunk(a, b, k) {
        let (i, start, end) = choose|i: int, start: int, end: int|
            0 <= i < a.len() && 0 <= start <= k < end <= b.len() && #[trigger] is_part(
                a[i],
                b,
                start,
                end,
            );
        assert(is_part((a + c)[i], b, start, end));
    } else {
        let (i, start, end) = choose|i: int, start: int, end: int|
            0 <= i < c.len() && 0 <= start <= k < end <= b.len() && #[trigger] is_part(
                c[i],
                b,
                start,
                end,
            );
        assert((a + c)[a.len() + i] == c[i]);
        assert(is_part((a + c)[a.len() + i], b, start, end));
    }
}

/// What is in a section that is not blank, or behind it, is in a chunk.
proof fn lemma_open_section_holds(
    path: Seq<char>,
    b: Seq<u8>,
    line_start: int,
    section_start: int,
    title: Seq<char>,
    k: int,
)
    requires
        text_range(b, section_start, line_start),
        !is_blank(decode_utf8(b.subrange(section_start, line_start))),
        section_start <= k < b.len(),
    ensures
        is_in_chunk(markdown_chunks_from(path, b, line_start, section_start, title), b, k),
    decreases b.len() - line_start,
{
    is_char_boundary_start_end_of_seq(b);
    if line_start >= b.len() {
        lemma_section_holds(path, b, section_start, b.len() as int, title, k);
    } else {
        lemma_line_end(b, line_start);
        let next = line_end(b, line_start);
        let line = decode_utf8(b.subrange(line_start, next));
        match section_title(line) {
            Some(t) => {
                lemma_heading_is_visible(line);
                if k < line_start {
                    lemma_section_holds(path, b, section_start, line_start, title, k);
                } else {
                    lemma_open_section_holds(path, b, next, line_start, t, k);
                }
                let s = section_chunks(path, b, section_start, line_start, title);
                let rest = markdown_chunks_from(path, b, next, line_start, t);
                lemma_in_either(s, rest, b, k);
            },
            None => {
                lemma_range_text_join(b, section_start, line_start, next);
                let head = decode_utf8(b.subrange(section_start, line_start));
                let i = choose|i: int| 0 <= i < head.len() && !is_white_space(#[trigger] head[i]);
                assert(decode_utf8(b.subrange(section_start, next))[i] == head[i]);
                lemma_open_section_holds(path, b, next, section_start, title, k);
            },
        }
    }
}

proof fn lemma_markdown_holds(
    path: Seq<char>,
    b: Seq<u8>,
    line_start: int,
    title: Seq<char>,
    k: int,
)
    requires
        text_range(b, 0, line_start),
        !is_blank(decode_utf8(b)),
        0 <= k < b.len(),
        first_heading(b, line_start) <= k || !is_blank(
            decode_utf8(b.subrange(0, first_heading(b, line_start))),
        ),
    ensures
        is_in_chunk(markdown_chunks_from(path, b, line_start, 0, title), b, k),
    decreases b.len() - line_start,
{
    is_char_boundary_start_end_of_seq(b);
    assert(b.subrange(0, b.len() as int) =~= b);
    if line_start >= b.len() {
        lemma_section_holds(path, b, 0, b.len() as int, title, k);
    } else {
        lemma_line_end(b, line_start);
        let next = line_end(b, line_start);
        let line = decode_utf8(b.subrange(line_start, next));
        match section_title(line) {
            Some(t) => {
                lemma_heading_is_visible(line);
                if k < line_start {
                    lemma_section_holds(path, b, 0, line_start, title, k);
                } else {
                    lemma_open_section_holds(path, b, next, line_start, t, k);
                }
                let s = section_chunks(path, b, 0, line_start, title);
                let rest = markdown_chunks_from(path, b, next, line_start, t);
                lemma_in_either(s, rest, b, k);
            },
            None => {
                lemma_markdown_holds(path, b, next, title, k);
            },
        }
    }
}

proof fn lemma_blank_part(b: Seq<u8>, start: int, end: int)
    requires
        text_range(b, start, end),
        is_blank(decode_utf8(b)),
    ensures
        is_blank(decode_utf8(b.subrange(start, end))),
{
    let n = b.len() as int;
    is_char_boundary_start_end_of_seq(b);
    lemma_range_text_join(b, 0, start, n);
    lemma_range_text_join(b, start, end, n);
    assert(b.subrange(0, n) =~= b);
    let front = decode_utf8(b.subrange(0, start));
    let part = decode_utf8(b.subrange(start, end));
    assert forall|i: int| 0 <= i < part.len() implies is_white_space(#[trigger] part[i]) by {
        assert(decode_utf8(b)[front.len() + i] == part[i]);
    }
}

/// A blank Markdown text has no sections.
proof fn lemma_blank_markdown(path: Seq<char>, b: Seq<u8>, line_start: int, title: Seq<char>)
    requires
        text_range(b, 0, line_start),
        is_blank(decode_utf8(b)),
    ensures
        markdown_chunks_from(path, b, line_start, 0, title).len() == 0,
    decreases b.len() - line_start,
{
    is_char_boundary_start_end_of_seq(b);
    if line_start >= b.len() {
        assert(b.subrange(0, b.len() as int) =~= b);
    } else {
        lemma_line_end(b, line_start);
        let next = line_end(b, line_start);
        let line = decode_utf8(b.subrange(line_start, next));
        lemma_blank_part(b, line_start, next);
        if section_title(line) is Some {
            lemma_heading_is_visible(line);
        }
        lemma_blank_markdown(path, b, next, title);
    }
}

/// Every byte of a text is in a chunk, but for white space before the first heading of a Markdown
/// text that goes on behind it.
pub proof fn lemma_every_byte_is_in_a_chunk(path: Seq<char>, text: Seq<char>, k: int)
    requires
        0 <= k < encode_utf8(text).len(),
        is_markdown(path) && !is_blank(text) ==> {
            let b = encode_utf8(text);
            let first = first_heading(b, 0);
            first <= k || !is_blank(decode_utf8(b.subrange(0, first)))
        },
    ensures
        is_in_chunk(text_chunks(path, text), encode_utf8(text), k),
{
    let b = encode_utf8(text);
    vstd::utf8::encode_utf8_valid_utf8(text);
    vstd::utf8::encode_utf8_decode_utf8(text);
    is_char_boundary_start_end_of_seq(b);
    if !is_markdown(path) {
        lemma_pieces_hold(b, 0, b.len() as int, path, k);
    } else if is_blank(text) {
        lemma_blank_markdown(path, b, 0, "document"@);
        assert(b.subrange(0, b.len() as int) =~= b);
        assert(is_part(markdown_chunks(path, text)[0], b, 0, b.len() as int));
    } else {
        lemma_from_the_beginning(path, b, 0, "document"@);
        lemma_markdown_holds(path, b, 0, "document"@, k);
    }
}

/// That many `#`.
pub open spec fn hashes(n: nat) -> Seq<char> {
    Seq::new(n, |i: int| '#')
}

proof fn lemma_leading_hashes(n: nat, rest: Seq<char>)
    requires
        rest.len() == 0 || rest[0] != '#',
    ensures
        leading_hashes(hashes(n) + rest) == n,
    decreases n,
{
    let s = hashes(n) + rest;
    if n > 0 {
        lemma_leading_hashes((n - 1) as nat, rest);
        assert(s[0] == '#');
        assert(s.drop_first() =~= hashes((n - 1) as nat) + rest);
    } else {
        assert(s =~= rest);
    }
}

proof fn lemma_many_hashes(n: nat, s: Seq<char>)
    requires
        n <= s.len(),
        forall|i: int| 0 <= i < n ==> #[trigger] s[i] == '#',
    ensures
        leading_hashes(s) >= n,
    decreases s.len(),
{
    if n == 0 {
        if s.len() > 0 && s[0] == '#' {
            lemma_many_hashes(0, s.drop_first());
        }
    } else {
        let t = s.drop_first();
        assert(s[0] == '#');
        assert forall|i: int| 0 <= i < n - 1 implies #[trigger] t[i] == '#' by {
            assert(s[i + 1] == '#');
        }
        lemma_many_hashes((n - 1) as nat, t);
    }
}

proof fn lemma_trim_start_indent(indent: Seq<char>, line: Seq<char>)
    requires
        is_blank(indent),
        line.len() > 0,
        !is_white_space(line[0]),
    ensures
        trim_start(indent + line) == line,
    decreases indent.len(),
{
    let s = indent + line;
    if indent.len() > 0 {
        assert(is_white_space(indent[0]));
        assert(s[0] == indent[0]);
        let rest = indent.drop_first();
        assert forall|i: int| 0 <= i < rest.len() implies is_white_space(#[trigger] rest[i]) by {
            assert(rest[i] == indent[i + 1]);
        }
        assert(s.drop_first() =~= rest + line);
        lemma_trim_start_indent(rest, line);
    } else {
        assert(s =~= line);
    }
}

/// A line of one to six `#`, a space and a title is a heading of that level with that title, and
/// opens a section however it is indented.
pub proof fn lemma_headings_of_all_levels(indent: Seq<char>, n: nat, title: Seq<char>)
    requires
        is_blank(indent),
        1 <= n <= 6,
        !is_blank(title),
    ensures
        heading(hashes(n) + seq![' '] + title) == Some((n as int, trim(title))),
        section_title(indent + (hashes(n) + seq![' '] + title)) == Some(trim(title)),
{
    let rest = seq![' '] + title;
    let line = hashes(n) + seq![' '] + title;
    assert(line =~= hashes(n) + rest);
    lemma_leading_hashes(n, rest);
    assert(line.skip(n as int) =~= rest);
    assert(is_white_space(' '));
    assert(rest.drop_first() =~= title);
    assert(trim_start(rest) == trim_start(title));
    crate::text::lemma_blank_trims_to_nothing(title);
    assert(line[0] == '#');
    lemma_trim_start_indent(indent, line);
}

/// The space behind the `#` may be left out.
pub proof fn lemma_headings_without_space(indent: Seq<char>, n: nat, title: Seq<char>)
    requires
        is_blank(indent),
        1 <= n <= 6,
        !is_blank(title),
        title[0] != '#',
    ensures
        heading(hashes(n) + title) == Some((n as int, trim(title))),
        section_title(indent + (hashes(n) + title)) == Some(trim(title)),
{
    let line = hashes(n) + title;
    lemma_leading_hashes(n, title);
    assert(line.skip(n as int) =~= title);
    crate::text::lemma_blank_trims_to_nothing(title);
    assert(line[0] == '#');
    lemma_trim_start_indent(indent, line);
}

/// A line that does not begin with `#`, or with seven of them, is no heading, and neither is one
/// with nothing behind them.
pub proof fn lemma_no_headings(line: Seq<char>)
    ensures
        line.len() > 0 && line[0] != '#' ==> heading(line) is None,
        line.len() >= 7 && (forall|i: int| 0 <= i < 7 ==> #[trigger] line[i] == '#') ==> heading(
            line,
        ) is None,
        forall|n: nat, rest: Seq<char>|
            is_blank(rest) && line == #[trigger] (hashes(n) + rest) ==> heading(line) is None,
{
    if line.len() >= 7 && (forall|i: int| 0 <= i < 7 ==> #[trigger] line[i] == '#') {
        lemma_many_hashes(7, line);
    }
    assert forall|n: nat, rest: Seq<char>|
        is_blank(rest) && line == #[trigger] (hashes(n) + rest) implies heading(line) is None by {
        if rest.len() > 0 {
            assert(is_white_space(rest[0]));
        }
        lemma_leading_hashes(n, rest);
        assert(line.skip(n as int) =~= rest);
        crate::text::lemma_blank_trims_to_nothing(rest);
    }
}

/// A line of a text begins at `p`.
pub open spec fn is_line_start(b: Seq<u8>, p: int) -> bool {
    p == 0 || 0 < p <= b.len() && b[p - 1] == 10
}

/// The title of the section that the line at `p` opens.
pub open spec fn title_at(b: Seq<u8>, p: int) -> Option<Seq<char>> {
    section_title(decode_utf8(b.subrange(p, line_end(b, p))))
}

/// The chunk is the part `b[start..end]` of a text, with its lines, in the section of that title.
pub open spec fn is_section_part(
    c: ChunkView,
    path: Seq<char>,
    b: Seq<u8>,
    start: int,
    end: int,
    title: Seq<char>,
) -> bool {
    &&& 0 <= start < end <= b.len()
    &&& encode_utf8(c.content) == b.subrange(start, end)
    &&& c.context_path == path + seq!['#'] + title
    &&& c.start_line == line_number(b, start)
    &&& c.end_line == line_number(b, end - 1)
}

proof fn lemma_section_begins(
    path: Seq<char>,
    b: Seq<u8>,
    start: int,
    end: int,
    title: Seq<char>,
) -> (to: int)
    requires
        text_range(b, start, end),
        !is_blank(decode_utf8(b.subrange(start, end))),
    ensures
        section_chunks(path, b, start, end, title).len() > 0,
        is_section_part(section_chunks(path, b, start, end, title)[0], path, b, start, to, title),
{
    let context = path + seq!['#'] + title;
    if start == end {
        assert(b.subrange(start, end) =~= Seq::<u8>::empty());
        assert(false);
    }
    if end - start <= MARKDOWN_SECTION_MAX_BYTES {
        lemma_range_chunk(b, start, end, context);
        lemma_line_span_inside(b, start, end);
        end
    } else {
        lemma_pieces_cover(b, start, end);
        let p = pieces(b, start, end);
        lemma_range_chunk(b, p[0].0, p[0].1, context);
        lemma_line_span_inside(b, p[0].0, p[0].1);
        p[0].1
    }
}

proof fn lemma_open_section_begins(
    path: Seq<char>,
    b: Seq<u8>,
    line_start: int,
    section_start: int,
    title: Seq<char>,
) -> (to: int)
    requires
        text_range(b, section_start, line_start),
        !is_blank(decode_utf8(b.subrange(section_start, line_start))),
    ensures
        markdown_chunks_from(path, b, line_start, section_start, title).len() > 0,
        is_section_part(
            markdown_chunks_from(path, b, line_start, section_start, title)[0],
            path,
            b,
            section_start,
            to,
            title,
        ),
    decreases b.len() - line_start,
{
    is_char_boundary_start_end_of_seq(b);
    if line_start >= b.len() {
        lemma_section_begins(path, b, section_start, b.len() as int, title)
    } else {
        lemma_line_end(b, line_start);
        let next = line_end(b, line_start);
        let line = decode_utf8(b.subrange(line_start, next));
        match section_title(line) {
            Some(t) => {
                let to = lemma_section_begins(path, b, section_start, line_start, title);
                let s = section_chunks(path, b, section_start, line_start, title);
                let rest = markdown_chunks_from(path, b, next, line_start, t);
                assert((s + rest)[0] == s[0]);
                to
            },
            None => {
                lemma_range_text_join(b, section_start, line_start, next);
                let head = decode_utf8(b.subrange(section_start, line_start));
                let i = choose|i: int| 0 <= i < head.len() && !is_white_space(#[trigger] head[i]);
                assert(decode_utf8(b.subrange(section_start, next))[i] == head[i]);
                lemma_open_section_begins(path, b, next, section_start, title)
            },
        }
    }
}

proof fn lemma_section_at(
    path: Seq<char>,
    b: Seq<u8>,
    line_start: int,
    section_start: int,
    title: Seq<char>,
    p: int,
) -> (r: (int, int))
    requires
        text_range(b, section_start, line_start),
        line_start <= p < b.len(),
        is_line_start(b, p),
        title_at(b, p) is Some,
    ensures
        ({
            let chunks = markdown_chunks_from(path, b, line_start, section_start, title);
            &&& 0 <= r.0 < chunks.len()
            &&& is_section_part(chunks[r.0], path, b, p, r.1, title_at(b, p)->0)
        }),
    decreases b.len() - line_start,
{
    lemma_line_end(b, line_start);
    crate::utf8_text::lemma_line_ends_at_first_newline(b, line_start);
    let next = line_end(b, line_start);
    let line = decode_utf8(b.subrange(line_start, next));
    if line_start == p {
        let t = title_at(b, p)->0;
        lemma_heading_is_visible(line);
        let to = lemma_open_section_begins(path, b, next, line_start, t);
        let s = section_chunks(path, b, section_start, line_start, title);
        let rest = markdown_chunks_from(path, b, next, line_start, t);
        assert((s + rest)[s.len() as int] == rest[0]);
        (s.len() as int, to)
    } else {
        assert(b[p - 1] == 10);
        assert(next <= p);
        match section_title(line) {
            Some(t) => {
                let (i, to) = lemma_section_at(path, b, next, line_start, t, p);
                let s = section_chunks(path, b, section_start, line_start, title);
                let rest = markdown_chunks_from(path, b, next, line_start, t);
                assert((s + rest)[s.len() + i] == rest[i]);
                (s.len() + i, to)
            },
            None => lemma_section_at(path, b, next, section_start, title, p),
        }
    }
}

/// A heading of a Markdown text opens a section, whatever its level: a chunk begins at its line,
/// with the number of that line, and is placed under its title.
pub proof fn lemma_heading_opens_section(
    path: Seq<char>,
    text: Seq<char>,
    p: int,
    indent: Seq<char>,
    n: nat,
    title: Seq<char>,
) -> (r: (int, int))
    requires
        is_markdown(path),
        0 <= p < encode_utf8(text).len(),
        is_line_start(encode_utf8(text), p),
        is_blank(indent),
        1 <= n <= 6,
        !is_blank(title),
        decode_utf8(encode_utf8(text).subrange(p, line_end(encode_utf8(text), p))) == indent + (
        hashes(n) + seq![' '] + title),
    ensures
        0 <= r.0 < text_chunks(path, text).len(),
        is_section_part(
            text_chunks(path, text)[r.0],
            path,
            encode_utf8(text),
            p,
            r.1,
            trim(title),
        ),
{
    let b = encode_utf8(text);
    vstd::utf8::encode_utf8_valid_utf8(text);
    is_char_boundary_start_end_of_seq(b);
    lemma_headings_of_all_levels(indent, n, title);
    lemma_section_at(path, b, 0, 0, "document"@, p)
}

/// The part `b[start..end]` is of the section that begins at `from`, and no heading is within.
pub open spec fn is_within_section(
    c: ChunkView,
    path: Seq<char>,
    b: Seq<u8>,
    from: int,
    start: int,
    end: int,
    title: Seq<char>,
) -> bool {
    &&& 0 <= from <= start
    &&& is_section_part(c, path, b, start, end, title)
    &&& from == 0 && title == "document"@ || is_line_start(b, from) && title_at(b, from) == Some(
        title,
    )
    &&& forall|q: int| from < q < end && is_line_start(b, q) ==> #[trigger] title_at(b, q) is None
}

proof fn lemma_part_within(
    path: Seq<char>,
    b: Seq<u8>,
    start: int,
    end: int,
    title: Seq<char>,
    i: int,
)
    requires
        text_range(b, start, end),
        start == 0 && title == "document"@ || is_line_start(b, start) && title_at(b, start) == Some(
            title,
        ),
        forall|q: int|
            start < q < end && is_line_start(b, q) ==> #[trigger] title_at(b, q) is None,
        0 <= i < section_chunks(path, b, start, end, title).len(),
    ensures
        exists|from: int, s: int, e: int, t: Seq<char>| #[trigger]
            is_within_section(section_chunks(path, b, start, end, title)[i], path, b, from, s, e, t),
{
    let context = path + seq!['#'] + title;
    let c = section_chunks(path, b, start, end, title)[i];
    if start == end {
        assert(b.subrange(start, end) =~= Seq::<u8>::empty());
        assert(false);
    }
    if end - start <= MARKDOWN_SECTION_MAX_BYTES {
        lemma_range_chunk(b, start, end, context);
        lemma_line_span_inside(b, start, end);
        assert(is_within_section(c, path, b, start, start, end, title));
    } else {
        lemma_pieces_cover(b, start, end);
        let p = pieces(b, start, end);
        lemma_range_chunk(b, p[i].0, p[i].1, context);
        lemma_line_span_inside(b, p[i].0, p[i].1);
        assert(is_within_section(c, path, b, start, p[i].0, p[i].1, title));
    }
}

proof fn lemma_chunk_within(
    path: Seq<char>,
    b: Seq<u8>,
    line_start: int,
    section_start: int,
    title: Seq<char>,
    i: int,
)
    requires
        text_range(b, section_start, line_start),
        section_start == 0 && title == "document"@ || is_line_start(b, section_start) && title_at(
            b,
            section_start,
        ) == Some(title),
        line_start < b.len() ==> is_line_start(b, line_start),
        forall|q: int|
            section_start < q < line_start && is_line_start(b, q) ==> #[trigger] title_at(
                b,
                q,
            ) is None,
        0 <= i < markdown_chunks_from(path, b, line_start, section_start, title).len(),
    ensures
        exists|from: int, s: int, e: int, t: Seq<char>| #[trigger]
            is_within_section(
                markdown_chunks_from(path, b, line_start, section_start, title)[i],
                path,
                b,
                from,
                s,
                e,
                t,
            ),
    decreases b.len() - line_start,
{
    is_char_boundary_start_end_of_seq(b);
    if line_start >= b.len() {
        lemma_part_within(path, b, section_start, b.len() as int, title, i);
    } else {
        lemma_line_end(b, line_start);
        crate::utf8_text::lemma_line_ends_at_first_newline(b, line_start);
        let next = line_end(b, line_start);
        assert forall|q: int| line_start < q < next && is_line_start(b, q) implies false by {
            assert(b[q - 1] == 10);
        }
        match title_at(b, line_start) {
            Some(t) => {
                let s = section_chunks(path, b, section_start, line_start, title);
                let rest = markdown_chunks_from(path, b, next, line_start, t);
                if i < s.len() {
                    lemma_part_within(path, b, section_start, line_start, title, i);
                    assert((s + rest)[i] == s[i]);
                } else {
                    assert((s + rest)[i] == rest[i - s.len()]);
                    lemma_chunk_within(path, b, next, line_start, t, i - s.len());
                }
            },
            None => {
                lemma_chunk_within(path, b, next, section_start, title, i);
            },
        }
    }
}

/// A chunk of a Markdown text that is not blank is part of one section: that of the last heading
/// at or before it, or of the beginning of the text, and it reaches over no heading.
pub proof fn lemma_chunk_is_within_section(path: Seq<char>, text: Seq<char>, i: int)
    requires
        is_markdown(path),
        !is_blank(text),
        0 <= i < text_chunks(path, text).len(),
    ensures
        exists|from: int, s: int, e: int, t: Seq<char>| #[trigger]
            is_within_section(text_chunks(path, text)[i], path, encode_utf8(text), from, s, e, t),
{
    let b = encode_utf8(text);
    vstd::utf8::encode_utf8_valid_utf8(text);
    vstd::utf8::encode_utf8_decode_utf8(text);
    is_char_boundary_start_end_of_seq(b);
    lemma_from_the_beginning(path, b, 0, "document"@);
    lemma_chunk_within(path, b, 0, 0, "document"@, i);
}

proof fn lemma_components(dir: Seq<char>, name: Seq<char>)
    requires
        !name.contains('/'),
        name.len() > 0,
        name != seq!['.'],
    ensures
        path_components(name) == seq![name],
        path_components(dir + seq!['/'] + name).last() == name,
        path_components(dir + seq!['/'] + name).len() > 0,
{
    crate::text::lemma_last_piece(dir, '/', name);
    reveal_with_fuel(Seq::filter, 2);
    let keep = |c: Seq<char>| c.len() > 0 && c != seq!['.'];
    let one = seq![name];
    assert(one.drop_last() =~= Seq::<Seq<char>>::empty());
    assert(one.filter(keep) =~= one);
    let p = split_on(dir, '/');
    assert(p.push(name).drop_last() =~= p);
    assert(p.push(name).filter(keep) =~= p.filter(keep).push(name));
}

/// A file is Markdown by the ending of its name: `.md`, `.markdown` or `.mdx`, wherever it is.
pub proof fn lemma_markdown_files(dir: Seq<char>, stem: Seq<char>, ext: Seq<char>)
    requires
        stem.len() > 0,
        !stem.contains('/'),
        !ext.contains('/'),
        !ext.contains('.'),
    ensures
        ({
            let name = stem + seq!['.'] + ext;
            let markdown = ext == "md"@ || ext == "markdown"@ || ext == "mdx"@;
            &&& is_markdown(name) <==> markdown
            &&& is_markdown(dir + seq!['/'] + name) <==> markdown
        }),
{
    let name = stem + seq!['.'] + ext;
    if ext.len() == 0 {
        reveal_strlit("md");
        reveal_strlit("markdown");
        reveal_strlit("mdx");
    }
    assert(!name.contains('/')) by {
        if name.contains('/') {
            let i = choose|i: int| 0 <= i < name.len() && name[i] == '/';
            if i < stem.len() {
                assert(stem[i] == '/');
            } else if i > stem.len() {
                assert(ext[i - stem.len() - 1] == '/');
            }
        }
    }
    if name == seq!['.'] {
        assert(name.len() >= 2);
    }
    if name == seq!['.', '.'] {
        assert(seq!['.', '.'].len() == 2);
        assert(name.len() == stem.len() + 1 + ext.len());
        assert(ext.len() == 0);
    }
    lemma_components(dir, name);
    crate::text::lemma_last_piece(stem, '.', ext);
    crate::text::lemma_split_is_at_separators(stem, '.');
    let parts = split_on(name, '.');
    assert(parts.drop_last() =~= split_on(stem, '.'));
    if parts.len() == 2 {
        assert(crate::text::joined_by(split_on(stem, '.'), '.') == split_on(stem, '.')[0]);
        assert(parts[0] == split_on(stem, '.')[0]);
    }
}

/// A name without a dot is no Markdown.
pub proof fn lemma_plain_names(dir: Seq<char>, name: Seq<char>)
    requires
        name.len() > 0,
        !name.contains('/'),
        !name.contains('.'),
    ensures
        !is_markdown(name),
        !is_markdown(dir + seq!['/'] + name),
{
    if name == seq!['.'] {
        assert(name[0] == '.');
    }
    lemma_components(dir, name);
    crate::text::lemma_last_piece(dir, '.', name);
}

proof fn lemma_newline_is_last(b: Seq<u8>, lo: int, hi: int)
    requires
        0 <= lo,
        hi <= b.len(),
    ensures
        lo <= hi ==> lo - 1 <= last_newline(b, lo, hi) < hi || last_newline(b, lo, hi) == lo - 1,
        last_newline(b, lo, hi) >= lo ==> b[last_newline(b, lo, hi)] == 10,
        forall|q: int| lo <= q < hi && last_newline(b, lo, hi) < q ==> #[trigger] b[q] != 10,
    decreases hi - lo,
{
    if hi > lo && b[hi - 1] != NEWLINE {
        lemma_newline_is_last(b, lo, hi - 1);
    }
}

/// A piece of a longer text ends behind the last newline among its 2048 bytes, but for the first
/// 256 of them, and between characters where there is none.
pub proof fn lemma_pieces_end_with_lines(b: Seq<u8>, start: int, range_end: int)
    requires
        text_range(b, start, range_end),
    ensures
        range_end - start <= 2048 ==> piece_end(b, start, range_end) == range_end,
        range_end - start > 2048 ==> {
            let e = piece_end(b, start, range_end);
            &&& start + 256 < e <= start + 2048
            &&& b[e - 1] == 10 && (forall|q: int| e <= q < start + 2045 ==> #[trigger] b[q] != 10)
                || e > start + 2044 && (forall|q: int| start + 256 <= q < e ==> #[trigger] b[q] != 10)
        },
{
    if range_end - start > 2048 {
        lemma_boundary_at_or_below(b, start + 2048);
        let limit = boundary_at_or_below(b, start + PLAIN_TEXT_MAX_CHUNK_BYTES);
        lemma_newline_is_last(b, start + 256, limit);
    }
}

/// The headline of a text is the text, where it is short; else its beginning and its end, of the
/// size that was asked for and at least 4096 bytes each, less the part of a character that would be
/// cut, with a mark between them.
pub proof fn lemma_headline_is_both_ends(text: Seq<char>, each_max: int) -> (r: (int, int))
    requires
        each_max >= 0,
    ensures
        ({
            let b = encode_utf8(text);
            let each = if each_max < 4096 {
                4096
            } else {
                each_max
            };
            &&& b.len() <= 2 * each ==> headline_of_text(text, each_max) == text
            &&& b.len() > 2 * each ==> {
                &&& each - 4 < r.0 <= each
                &&& b.len() - each - 4 < r.1 <= b.len() - each
                &&& headline_of_text(text, each_max) == decode_utf8(b.subrange(0, r.0)) + "\n…\n"@
                    + decode_utf8(b.subrange(r.1, b.len() as int))
            }
        }),
{
    let b = encode_utf8(text);
    vstd::utf8::encode_utf8_valid_utf8(text);
    let each = headline_each(each_max);
    if b.len() > 2 * each {
        lemma_boundary_at_or_below(b, each);
        lemma_boundary_at_or_below(b, b.len() - each);
        (boundary_at_or_below(b, each), boundary_at_or_below(b, b.len() - each))
    } else {
        (0, 0)
    }
}

/// A headline holds its text, is marked as one, and counts its own lines.
pub proof fn lemma_headline_is_marked(path: Seq<char>, text: Seq<char>)
    ensures
        headline_chunk(path, text).content == text,
        headline_chunk(path, text).context_path == path + "#headline_only"@,
        text.len() > 0 ==> headline_chunk(path, text).start_line == 1,
        text.len() > 0 ==> headline_chunk(path, text).end_line == line_number(
            encode_utf8(text),
            encode_utf8(text).len() - 1,
        ),
{
    let b = encode_utf8(text);
    if text.len() > 0 {
        assert(b.len() > 0) by {
            vstd::utf8::encode_utf8_decode_utf8(text);
            if b.len() == 0 {
                assert(b =~= encode_utf8(Seq::<char>::empty()));
                vstd::utf8::encode_utf8_decode_utf8(Seq::<char>::empty());
            }
        }
        lemma_line_span_inside(b, 0, b.len() as int);
    }
}

/// A headline that is put together from two ends has a mark between them where something is left
/// out.
pub proof fn lemma_headline_of_ends(total_len: int, head: Seq<char>, tail: Seq<char>, each_max: int)
    ensures
        total_len <= 8192 ==> headline_text(total_len, head, tail, each_max) == head + tail,
        total_len > 8192 && total_len > 2 * each_max ==> headline_text(
            total_len,
            head,
            tail,
            each_max,
        ) == head + "\n…\n"@ + tail,
        total_len <= 2 * each_max ==> headline_text(total_len, head, tail, each_max) == head + tail,
{
}

/// A text of which nothing else is worth a chunk is one chunk, from its first line to its last.
pub proof fn lemma_text_as_one_chunk(path: Seq<char>, text: Seq<char>)
    ensures
        whole_text_chunk(path, text).start_line == 1,
        whole_text_chunk(path, text).end_line == recorded_line_count(encode_utf8(text)),
        whole_text_chunk(path, text).content == text,
        whole_text_chunk(path, text).context_path == path,
        encode_utf8(text).len() == 0 ==> plain_text_chunks(path, text).len() == 1,
{
}

/// A range that holds nothing has no pieces, and any other begins with its first.
pub proof fn lemma_ranges_have_pieces(b: Seq<u8>, start: int, range_end: int)
    requires
        text_range(b, start, range_end),
    ensures
        start >= range_end <==> range_pieces(b, start, range_end).len() == 0,
        start < range_end ==> range_pieces(b, start, range_end)[0].0 == start,
        start < range_end ==> range_pieces(b, start, range_end).last().1 == range_end,
{
    if start < range_end {
        lemma_pieces_cover(b, start, range_end);
    }
}

/// A line of one to six number signs, a space and a title is a heading of that level.
pub proof fn lemma_headings_are_read(line: &str, n: nat, title: Seq<char>, r: Option<(u8, String)>)
    requires
        1 <= n <= 6,
        !is_blank(title),
        line@ == hashes(n) + seq![' '] + title,
        call_ensures(markdown_heading, (line,), r),
    ensures
        r matches Some((level, name)) && level == n && name@ == trim(title),
{
    lemma_headings_of_all_levels(Seq::empty(), n, title);
}

/// Wherever a heading of any level stands in a Markdown text, a chunk begins with it and goes by
/// its title.
pub proof fn lemma_headings_open_chunks(
    path: &str,
    text: &str,
    r: Vec<IndexedChunk>,
    p: int,
    indent: Seq<char>,
    n: nat,
    title: Seq<char>,
)
    requires
        call_ensures(chunk_text, (path, text), r),
        is_markdown(path@),
        0 <= p < encode_utf8(text@).len(),
        is_line_start(encode_utf8(text@), p),
        is_blank(indent),
        1 <= n <= 6,
        !is_blank(title),
        decode_utf8(encode_utf8(text@).subrange(p, line_end(encode_utf8(text@), p))) == indent + (
        hashes(n) + seq![' '] + title),
    ensures
        exists|i: int, e: int|
            0 <= i < r@.len() && #[trigger] is_section_part(
                chunk_views(r@)[i],
                path@,
                encode_utf8(text@),
                p,
                e,
                trim(title),
            ),
{
    let (i, e) = lemma_heading_opens_section(path@, text@, p, indent, n, title);
    assert(is_section_part(chunk_views(r@)[i], path@, encode_utf8(text@), p, e, trim(title)));
}

/// A chunk of a text that is no Markdown is a part of the text, goes by the path of the file, and
/// tells on which lines it stands.
pub proof fn lemma_plain_chunk_is_part(path: Seq<char>, text: Seq<char>, i: int)
    requires
        !is_markdown(path),
        text.len() > 0,
        0 <= i < text_chunks(path, text).len(),
    ensures
        exists|s: int, e: int|
            {
                &&& 0 <= s < e <= encode_utf8(text).len()
                &&& e - s <= 2048
                &&& encode_utf8(text_chunks(path, text)[i].content) == #[trigger] encode_utf8(
                    text,
                ).subrange(s, e)
                &&& text_chunks(path, text)[i].context_path == path
                &&& text_chunks(path, text)[i].start_line == line_number(encode_utf8(text), s)
                &&& text_chunks(path, text)[i].end_line == line_number(encode_utf8(text), e - 1)
            },
{
    let b = encode_utf8(text);
    vstd::utf8::encode_utf8_valid_utf8(text);
    is_char_boundary_start_end_of_seq(b);
    assert(b.len() > 0) by {
        vstd::utf8::encode_utf8_decode_utf8(text);
        if b.len() == 0 {
            assert(b =~= encode_utf8(Seq::<char>::empty()));
            vstd::utf8::encode_utf8_decode_utf8(Seq::<char>::empty());
        }
    }
    let p = pieces(b, 0, b.len() as int);
    lemma_pieces_cover(b, 0, b.len() as int);
    let (s, e) = p[i];
    lemma_range_chunk(b, s, e, path);
    lemma_line_span_inside(b, s, e);
    assert(text_chunks(path, text)[i] == chunk_of_range(b, s, e, path));
    assert(encode_utf8(text_chunks(path, text)[i].content) == b.subrange(s, e));
}

/// The parts of a path are what stands between its slashes, without what is empty or a single dot.
pub proof fn lemma_parts_of_a_path(path: Seq<char>, part: Seq<char>)
    ensures
        path_components(path).contains(part) <==> split_on(path, '/').contains(part) && part.len()
            > 0 && part != "."@,
{
    reveal_strlit(".");
    assert("."@ =~= seq!['.']);
    crate::rpc::lemma_filtered(
        split_on(path, '/'),
        |c: Seq<char>| c.len() > 0 && c != seq!['.'],
        part,
    );
}

} // verus!
