//! Indexing of content that was written to its place and is read back piece by piece.
use crate::chunking::{headline_chunk, headline_text};
use crate::file_indexing::{
    blake3_hex,
    prepare_file_indexing_from_utf8,
    prepare_file_indexing_headline_only_from_head_tail,
    prepare_non_utf8_file_indexing,
    prepared_binary,
    prepared_file,
    prepared_headline,
    prepared_text,
    text_of_utf8,
    PreparedFileIndexing,
    PreparedView,
    DEFAULT_HEADLINE_EACH_BYTES,
};
use crate::utf8_text::{
    boundary_at_or_above,
    boundary_at_or_below,
    lemma_boundary_above_is_near,
    lemma_boundary_at_or_above,
    lemma_boundary_at_or_below,
    lemma_str_bytes,
};
use vstd::prelude::*;
use vstd::utf8::{
    decode_utf8,
    is_char_boundary,
    is_char_boundary_iff_not_is_continuation_byte,
    is_char_boundary_start_end_of_seq,
    length_of_first_scalar,
    pop_first_scalar,
    valid_utf8,
    valid_utf8_split,
};

verus! {

// ---------------------------------------------------------------------------
// The digest
// ---------------------------------------------------------------------------

/// The type `blake3::Hasher`.
#[verifier::external_type_specification]
#[verifier::external_body]
pub struct ExHasher(blake3::Hasher);

/// The bytes that a hasher was given, in order.
pub uninterp spec fn hashed_bytes(hasher: blake3::Hasher) -> Seq<u8>;

/// `blake3::Hasher::new`: a hasher that was given nothing.
#[verifier::external_body]
fn new_hasher() -> (r: blake3::Hasher)
    ensures
        hashed_bytes(r) == Seq::<u8>::empty(),
{
    blake3::Hasher::new()
}

/// `blake3::Hasher::update`: the bytes are taken in behind those before them.
#[verifier::external_body]
fn feed_hasher(hasher: &mut blake3::Hasher, bytes: &[u8])
    ensures
        hashed_bytes(*final(hasher)) == hashed_bytes(*old(hasher)) + bytes@,
{
    hasher.update(bytes);
}

/// `blake3::Hasher::finalize` and `Hash::to_hex`: the digest that `blake3::hash` has for all the
/// bytes at once, however they were cut into pieces.
#[verifier::external_body]
fn hasher_digest(hasher: &blake3::Hasher) -> (r: String)
    ensures
        r@ == blake3_hex(hashed_bytes(*hasher)),
{
    hasher.finalize().to_hex().to_string()
}

/// The digest of content that comes in pieces.
#[derive(Debug)]
pub struct ContentDigest {
    hasher: blake3::Hasher,
}

impl View for ContentDigest {
    type V = Seq<u8>;

    closed spec fn view(&self) -> Seq<u8> {
        hashed_bytes(self.hasher)
    }
}

impl ContentDigest {
    pub fn new() -> (r: ContentDigest)
        ensures
            r@ == Seq::<u8>::empty(),
    {
        ContentDigest { hasher: new_hasher() }
    }

    pub fn update(&mut self, bytes: &[u8])
        ensures
            final(self)@ == old(self)@ + bytes@,
    {
        feed_hasher(&mut self.hasher, bytes);
    }

    /// The digest of all that came, the same as that of content in one piece.
    pub fn hex(&self) -> (r: String)
        ensures
            r@ == blake3_hex(self@),
    {
        hasher_digest(&self.hasher)
    }
}

// ---------------------------------------------------------------------------
// Whether it is text
// ---------------------------------------------------------------------------

/// The type `utf8parse::Parser`.
#[verifier::external_type_specification]
#[verifier::external_body]
pub struct ExParser(utf8parse::Parser);

/// The bytes that a parser was given, in order.
pub uninterp spec fn parsed_bytes(parser: utf8parse::Parser) -> Seq<u8>;

/// The bytes are UTF-8, but for a character that may still be unfinished at their end.
pub open spec fn parser_accepts(bytes: Seq<u8>) -> bool {
    exists|rest: Seq<u8>| rest.len() <= 3 && #[trigger] valid_utf8(bytes + rest)
}

/// Whether everything that a parser has told of was UTF-8.
#[derive(Debug, Clone, Copy)]
pub struct Utf8Flag {
    pub valid: bool,
}

impl utf8parse::Receiver for Utf8Flag {
    fn codepoint(&mut self, _c: char) {
    }

    fn invalid_sequence(&mut self) {
        self.valid = false;
    }
}

/// `utf8parse::Parser::new`: a parser that was given nothing.
#[verifier::external_body]
fn new_parser() -> (r: utf8parse::Parser)
    ensures
        parsed_bytes(r) == Seq::<u8>::empty(),
{
    utf8parse::Parser::new()
}

/// `utf8parse::Parser::advance`: the byte is taken in behind those before it. The receiver is told
/// of an invalid sequence as soon as no further bytes can make UTF-8 of what came, and is never
/// told so of bytes that can still become UTF-8. Once it was told, its flag stays down.
#[verifier::external_body]
fn advance_parser(parser: &mut utf8parse::Parser, flag: &mut Utf8Flag, byte: u8)
    requires
        old(flag).valid == parser_accepts(parsed_bytes(*old(parser))),
    ensures
        parsed_bytes(*final(parser)) == parsed_bytes(*old(parser)).push(byte),
        final(flag).valid == parser_accepts(parsed_bytes(*final(parser))),
{
    parser.advance(flag, byte);
}

/// `==` of `utf8parse::Parser`, with a new one: a parser that has found nothing wrong is as a new
/// one exactly where no character is unfinished.
#[verifier::external_body]
fn is_between_characters(parser: &utf8parse::Parser) -> (r: bool)
    requires
        parser_accepts(parsed_bytes(*parser)),
    ensures
        r == valid_utf8(parsed_bytes(*parser)),
{
    *parser == utf8parse::Parser::new()
}

/// Whether content that comes in pieces is text. The content is not held.
#[derive(Debug)]
pub struct Utf8Check {
    parser: utf8parse::Parser,
    flag: Utf8Flag,
}

impl View for Utf8Check {
    type V = Seq<u8>;

    closed spec fn view(&self) -> Seq<u8> {
        parsed_bytes(self.parser)
    }
}

proof fn lemma_text_is_accepted(bytes: Seq<u8>)
    requires
        valid_utf8(bytes),
    ensures
        parser_accepts(bytes),
{
    assert(bytes + Seq::<u8>::empty() =~= bytes);
    assert(valid_utf8(bytes + Seq::<u8>::empty()));
}

impl Utf8Check {
    /// The flag says of the bytes that came what is so.
    pub closed spec fn well_formed(&self) -> bool {
        self.flag.valid == parser_accepts(self@)
    }

    pub fn new() -> (r: Utf8Check)
        ensures
            r.well_formed(),
            r@ == Seq::<u8>::empty(),
    {
        proof {
            lemma_text_is_accepted(Seq::<u8>::empty());
        }
        Utf8Check { parser: new_parser(), flag: Utf8Flag { valid: true } }
    }

    pub fn feed(&mut self, bytes: &[u8])
        requires
            old(self).well_formed(),
        ensures
            final(self).well_formed(),
            final(self)@ == old(self)@ + bytes@,
    {
        let mut i: usize = 0;
        let ghost before = self@;
        proof {
            assert(before + bytes@.take(0) =~= before);
        }
        while i < bytes.len()
            invariant
                i <= bytes@.len(),
                self.well_formed(),
                self@ == before + bytes@.take(i as int),
            decreases bytes@.len() - i,
        {
            advance_parser(&mut self.parser, &mut self.flag, bytes[i]);
            proof {
                assert((before + bytes@.take(i as int)).push(bytes@[i as int]) =~= before
                    + bytes@.take(i + 1));
            }
            i = i + 1;
        }
        proof {
            assert(bytes@.take(bytes@.len() as int) =~= bytes@);
        }
    }

    /// Whether what came so far can still become UTF-8, or is.
    pub fn accepts(&self) -> (r: bool)
        requires
            self.well_formed(),
        ensures
            r == parser_accepts(self@),
    {
        self.flag.valid
    }

    /// Whether what came is UTF-8.
    pub fn is_text(&self) -> (r: bool)
        requires
            self.well_formed(),
        ensures
            r == valid_utf8(self@),
    {
        proof {
            if valid_utf8(self@) {
                lemma_text_is_accepted(self@);
            }
        }
        self.accepts() && is_between_characters(&self.parser)
    }
}

// ---------------------------------------------------------------------------
// What to read again
// ---------------------------------------------------------------------------

/// What is read of content once it was read through.
#[derive(Debug, Clone, Copy, PartialEq, Eq, Structural)]
pub enum CommittedStep {
    /// It is not text: nothing more.
    Binary,
    /// It is a long text: this many bytes from each end.
    Ends { each: usize },
    Whole,
}

pub open spec fn committed_step(
    is_text: bool,
    len: u64,
    skip_chunking_over_bytes: u64,
    headline_each_bytes: usize,
) -> CommittedStep {
    if !is_text {
        CommittedStep::Binary
    } else if len > skip_chunking_over_bytes {
        CommittedStep::Ends {
            each: if headline_each_bytes < DEFAULT_HEADLINE_EACH_BYTES {
                DEFAULT_HEADLINE_EACH_BYTES
            } else {
                headline_each_bytes
            },
        }
    } else {
        CommittedStep::Whole
    }
}

pub fn next_committed_step(
    is_text: bool,
    len: u64,
    skip_chunking_over_bytes: u64,
    headline_each_bytes: usize,
) -> (r: CommittedStep)
    ensures
        r == committed_step(is_text, len, skip_chunking_over_bytes, headline_each_bytes),
{
    if !is_text {
        return CommittedStep::Binary;
    }
    if len > skip_chunking_over_bytes {
        let each: usize = if headline_each_bytes < DEFAULT_HEADLINE_EACH_BYTES {
            DEFAULT_HEADLINE_EACH_BYTES
        } else {
            headline_each_bytes
        };
        return CommittedStep::Ends { each };
    }
    CommittedStep::Whole
}

/// Where the last `each` bytes begin.
pub fn tail_offset(len: u64, each: usize) -> (r: u64)
    ensures
        r == if len < each {
            0
        } else {
            len - each
        },
{
    if len < each as u64 {
        0
    } else {
        len - each as u64
    }
}

// ---------------------------------------------------------------------------
// Ends of a text
// ---------------------------------------------------------------------------

/// The longest beginning of `b` that is UTF-8.
pub open spec fn utf8_prefix_of(b: Seq<u8>) -> Seq<u8>
    decreases b.len(),
{
    if b.len() == 0 || valid_utf8(b) {
        b
    } else {
        utf8_prefix_of(b.drop_last())
    }
}

/// The end of `b` from its first character on, where one begins within the first four bytes.
pub open spec fn utf8_suffix_of(b: Seq<u8>, dropped: nat) -> Option<Seq<u8>>
    decreases 4 - dropped,
{
    if dropped > 3 || dropped > b.len() {
        None
    } else if valid_utf8(b.skip(dropped as int)) {
        Some(b.skip(dropped as int))
    } else {
        utf8_suffix_of(b, dropped + 1)
    }
}

/// The text at the beginning of some content.
pub fn utf8_prefix(head: &[u8]) -> (r: String)
    ensures
        valid_utf8(utf8_prefix_of(head@)),
        r@ == decode_utf8(utf8_prefix_of(head@)),
{
    let mut n: usize = head.len();
    proof {
        assert(head@.take(n as int) =~= head@);
    }
    while n > 0
        invariant
            n <= head@.len(),
            utf8_prefix_of(head@.take(n as int)) == utf8_prefix_of(head@),
        decreases n,
    {
        let piece = vstd::slice::slice_subrange(head, 0, n);
        proof {
            assert(piece@ =~= head@.take(n as int));
        }
        if let Some(text) = text_of_utf8(piece) {
            proof {
                lemma_str_bytes(text);
            }
            return text.to_owned();
        }
        proof {
            assert(head@.take(n as int).drop_last() =~= head@.take(n - 1));
        }
        n = n - 1;
    }
    proof {
        assert(head@.take(0) =~= Seq::<u8>::empty());
        assert(decode_utf8(Seq::<u8>::empty()) =~= Seq::<char>::empty());
    }
    String::new()
}

/// The text at the end of some content; `None` where no character begins in its first four bytes,
/// or where it does not end as UTF-8.
pub fn utf8_suffix(tail: &[u8]) -> (r: Option<String>)
    ensures
        match r {
            Some(text) => utf8_suffix_of(tail@, 0) is Some && text@ == decode_utf8(
                utf8_suffix_of(tail@, 0)->0,
            ),
            None => utf8_suffix_of(tail@, 0) is None,
        },
{
    let mut k: usize = 0;
    while k <= 3 && k <= tail.len()
        invariant
            k <= 4,
            utf8_suffix_of(tail@, k as nat) == utf8_suffix_of(tail@, 0),
        decreases 4 - k,
    {
        let piece = vstd::slice::slice_subrange(tail, k, tail.len());
        proof {
            assert(piece@ =~= tail@.skip(k as int));
        }
        if let Some(text) = text_of_utf8(piece) {
            proof {
                lemma_str_bytes(text);
            }
            return Some(text.to_owned());
        }
        k = k + 1;
    }
    None
}

/// What is recorded of long content of which the two ends were read. Where its end is cut inside a
/// character, it is not text.
pub open spec fn prepared_from_ends(
    path: Seq<char>,
    len: u64,
    digest_hex: Seq<char>,
    headline_each_bytes: usize,
    head: Seq<u8>,
    tail: Seq<u8>,
) -> PreparedView {
    match utf8_suffix_of(tail, 0) {
        None => prepared_binary(digest_hex),
        Some(t) => prepared_headline(
            digest_hex,
            headline_chunk(
                path,
                headline_text(
                    (len as usize) as int,
                    decode_utf8(utf8_prefix_of(head)),
                    decode_utf8(t),
                    headline_each_bytes as int,
                ),
            ),
        ),
    }
}

pub fn prepare_from_ends(
    normalized_path: &str,
    len: u64,
    digest_hex: String,
    headline_each_bytes: usize,
    head: &[u8],
    tail: &[u8],
) -> (r: PreparedFileIndexing)
    ensures
        r@ == prepared_from_ends(
            normalized_path@,
            len,
            digest_hex@,
            headline_each_bytes,
            head@,
            tail@,
        ),
{
    let head_text = utf8_prefix(head);
    match utf8_suffix(tail) {
        None => prepare_non_utf8_file_indexing(digest_hex),
        Some(tail_text) => prepare_file_indexing_headline_only_from_head_tail(
            normalized_path,
            len,
            digest_hex,
            headline_each_bytes,
            head_text.as_str(),
            tail_text.as_str(),
        ),
    }
}

/// What is recorded of content that was read whole. What is not UTF-8 is recorded without chunks.
pub open spec fn prepared_from_whole(
    path: Seq<char>,
    content: Seq<u8>,
    len: u64,
    digest_hex: Seq<char>,
    skip_chunking_over_bytes: u64,
    headline_each_bytes: usize,
) -> PreparedView {
    if valid_utf8(content) {
        prepared_text(
            path,
            decode_utf8(content),
            len as int,
            digest_hex,
            skip_chunking_over_bytes as int,
            headline_each_bytes as int,
        )
    } else {
        prepared_binary(digest_hex)
    }
}

pub fn prepare_from_whole(
    normalized_path: &str,
    content: &[u8],
    len: u64,
    digest_hex: String,
    skip_chunking_over_bytes: u64,
    headline_each_bytes: usize,
) -> (r: PreparedFileIndexing)
    ensures
        r@ == prepared_from_whole(
            normalized_path@,
            content@,
            len,
            digest_hex@,
            skip_chunking_over_bytes,
            headline_each_bytes,
        ),
{
    match text_of_utf8(content) {
        None => prepare_non_utf8_file_indexing(digest_hex),
        Some(text) => {
            proof {
                lemma_str_bytes(text);
            }
            prepare_file_indexing_from_utf8(
                normalized_path,
                text,
                len,
                digest_hex,
                skip_chunking_over_bytes,
                headline_each_bytes,
            )
        },
    }
}

// ---------------------------------------------------------------------------
// Laws
// ---------------------------------------------------------------------------

proof fn lemma_prefix_reaches(b: Seq<u8>, k: int)
    requires
        0 <= k <= b.len(),
        valid_utf8(b.take(k)),
    ensures
        utf8_prefix_of(b).len() >= k,
    decreases b.len(),
{
    if b.len() > 0 && !valid_utf8(b) {
        assert(b.take(b.len() as int) =~= b);
        assert(k < b.len());
        assert(b.drop_last().take(k) =~= b.take(k));
        lemma_prefix_reaches(b.drop_last(), k);
    }
}

/// The head that is read of a text is text but for at most three bytes.
pub proof fn lemma_head_of_text(content: Seq<u8>, n: int)
    requires
        valid_utf8(content),
        0 <= n <= content.len(),
    ensures
        utf8_prefix_of(content.take(n)).len() > n - 4,
{
    lemma_boundary_at_or_below(content, n);
    let k = boundary_at_or_below(content, n);
    valid_utf8_split(content, k);
    assert(content.take(n).take(k) =~= content.subrange(0, k));
    lemma_prefix_reaches(content.take(n), k);
}

proof fn lemma_suffix_reaches(b: Seq<u8>, dropped: nat, k: nat)
    requires
        dropped <= k <= 3,
        k <= b.len(),
        valid_utf8(b.skip(k as int)),
    ensures
        utf8_suffix_of(b, dropped) is Some,
        utf8_suffix_of(b, dropped)->0.len() >= b.len() - k,
    decreases k - dropped,
{
    if !valid_utf8(b.skip(dropped as int)) {
        lemma_suffix_reaches(b, dropped + 1, k);
    }
}

/// The tail that is read of a text is text but for at most three bytes: long texts are never
/// refused.
pub proof fn lemma_tail_of_text(content: Seq<u8>, n: int)
    requires
        valid_utf8(content),
        0 <= n <= content.len(),
    ensures
        utf8_suffix_of(content.skip(n), 0) is Some,
        utf8_suffix_of(content.skip(n), 0)->0.len() >= content.len() - n - 3,
{
    is_char_boundary_start_end_of_seq(content);
    lemma_boundary_above_is_near(content, n);
    lemma_boundary_at_or_above(content, n, content.len() as int);
    let k = boundary_at_or_above(content, n);
    valid_utf8_split(content, k);
    assert(content.skip(n).skip(k - n) =~= content.subrange(k, content.len() as int));
    lemma_suffix_reaches(content.skip(n), 0, (k - n) as nat);
}

/// The end of a beginning of a text: where the last character ends that is whole in it.
proof fn lemma_prefix_is_at_boundary(content: Seq<u8>, n: int)
    requires
        valid_utf8(content),
        0 <= n <= content.len(),
    ensures
        utf8_prefix_of(content.take(n)) == content.take(boundary_at_or_below(content, n)),
    decreases n,
{
    let b = content.take(n);
    lemma_boundary_at_or_below(content, n);
    let k = boundary_at_or_below(content, n);
    valid_utf8_split(content, k);
    assert(content.take(k) =~= content.subrange(0, k));
    if k == n {
    } else {
        if valid_utf8(b) {
            lemma_valid_prefix_ends_at_boundary(content, n);
        }
        assert(b.drop_last() =~= content.take(n - 1));
        lemma_prefix_is_at_boundary(content, n - 1);
    }
}

/// A beginning of a text that is itself text ends between characters.
proof fn lemma_valid_prefix_ends_at_boundary(content: Seq<u8>, n: int)
    requires
        valid_utf8(content),
        0 <= n <= content.len(),
        valid_utf8(content.take(n)),
    ensures
        is_char_boundary(content, n),
    decreases n,
{
    if n > 0 && n < content.len() {
        let b = content.take(n);
        let w = length_of_first_scalar(b);
        assert(w == length_of_first_scalar(content));
        let rest = pop_first_scalar(content);
        assert(pop_first_scalar(b) =~= rest.take(n - w));
        lemma_valid_prefix_ends_at_boundary(rest, n - w);
    } else {
        is_char_boundary_start_end_of_seq(content);
    }
}

/// The tail of a text: from where the first character begins in it.
proof fn lemma_suffix_is_at_boundary(content: Seq<u8>, n: int)
    requires
        valid_utf8(content),
        0 <= n <= content.len(),
    ensures
        utf8_suffix_of(content.skip(n), 0) == Some(
            content.skip(boundary_at_or_above(content, n)),
        ),
{
    is_char_boundary_start_end_of_seq(content);
    lemma_boundary_above_is_near(content, n);
    lemma_boundary_at_or_above(content, n, content.len() as int);
    lemma_suffix_from(content, n, 0);
}

proof fn lemma_suffix_from(content: Seq<u8>, n: int, dropped: nat)
    requires
        valid_utf8(content),
        0 <= n <= content.len(),
        n + dropped <= boundary_at_or_above(content, n) <= n + 3,
        boundary_at_or_above(content, n) <= content.len(),
        is_char_boundary(content, boundary_at_or_above(content, n)),
        boundary_at_or_above(content, n + dropped) == boundary_at_or_above(content, n),
    ensures
        utf8_suffix_of(content.skip(n), dropped) == Some(
            content.skip(boundary_at_or_above(content, n)),
        ),
    decreases 4 - dropped,
{
    let k = boundary_at_or_above(content, n);
    let b = content.skip(n);
    assert(b.skip(dropped as int) =~= content.skip(n + dropped));
    if n + dropped == k {
        valid_utf8_split(content, k);
        assert(content.skip(k) =~= content.subrange(k, content.len() as int));
    } else {
        lemma_cut_start_is_no_text(content, n + dropped);
        lemma_suffix_from(content, n, dropped + 1);
    }
}

/// What begins inside a character is not text.
proof fn lemma_cut_start_is_no_text(content: Seq<u8>, n: int)
    requires
        valid_utf8(content),
        0 <= n < content.len(),
        !is_char_boundary(content, n),
    ensures
        !valid_utf8(content.skip(n)),
{
    is_char_boundary_iff_not_is_continuation_byte(content, n);
    let t = content.skip(n);
    if valid_utf8(t) {
        is_char_boundary_start_end_of_seq(t);
        is_char_boundary_iff_not_is_continuation_byte(t, 0);
        assert(t[0] == content[n]);
    }
}

/// What is recorded of a text over the limit, from its two ends: the characters that are whole in
/// the first `each` bytes and in the last.
pub open spec fn long_text_record(
    path: Seq<char>,
    content: Seq<u8>,
    each: int,
    headline_each_bytes: usize,
) -> PreparedView {
    let n = content.len() as int;
    let head_end = if n < each {
        n
    } else {
        each
    };
    prepared_headline(
        blake3_hex(content),
        headline_chunk(
            path,
            headline_text(
                (n as usize) as int,
                decode_utf8(content.take(boundary_at_or_below(content, head_end))),
                decode_utf8(content.skip(boundary_at_or_above(content, n - head_end))),
                headline_each_bytes as int,
            ),
        ),
    )
}

/// A file that was fed to a check and to a digest in pieces, and read back as they say, is recorded
/// as one that was put from memory: it is skipped where it is not text, and cut into chunks where it
/// is short. A long text is recorded by its two ends.
pub proof fn lemma_committed_as_put(
    path: Seq<char>,
    check: Utf8Check,
    digest: ContentDigest,
    content: Seq<u8>,
    skip_chunking_over_bytes: u64,
    headline_each_bytes: usize,
)
    requires
        content.len() <= u64::MAX,
        check@ == content,
        digest@ == content,
    ensures
        ({
            let len = content.len() as u64;
            let put = prepared_file(
                path,
                content,
                blake3_hex(content),
                skip_chunking_over_bytes as int,
                headline_each_bytes as int,
            );
            match committed_step(
                valid_utf8(check@),
                len,
                skip_chunking_over_bytes,
                headline_each_bytes,
            ) {
                CommittedStep::Binary => prepared_binary(blake3_hex(digest@)) == put,
                CommittedStep::Whole => prepared_from_whole(
                    path,
                    content,
                    len,
                    blake3_hex(digest@),
                    skip_chunking_over_bytes,
                    headline_each_bytes,
                ) == put,
                CommittedStep::Ends { each } => {
                    let ends = prepared_from_ends(
                        path,
                        len,
                        blake3_hex(digest@),
                        headline_each_bytes,
                        content.take(
                            if len < each {
                                len as int
                            } else {
                                each as int
                            },
                        ),
                        content.skip(
                            if len < each {
                                0
                            } else {
                                len - each
                            },
                        ),
                    );
                    &&& ends == long_text_record(path, content, each as int, headline_each_bytes)
                    &&& ends.digest_hex == put.digest_hex
                    &&& ends.indexing_policy == put.indexing_policy
                    &&& ends.headline_only == put.headline_only
                    &&& ends.chunks.len() == put.chunks.len()
                },
            }
        }),
{
    let step = committed_step(
        valid_utf8(check@),
        content.len() as u64,
        skip_chunking_over_bytes,
        headline_each_bytes,
    );
    if let CommittedStep::Ends { each } = step {
        let n = content.len() as int;
        let head_end = if n < each {
            n
        } else {
            each as int
        };
        lemma_prefix_is_at_boundary(content, head_end);
        lemma_suffix_is_at_boundary(content, n - head_end);
    }
}

/// Content that is cut inside a character is recorded as any other that is not text, however it is
/// read back.
pub proof fn lemma_cut_content_is_skipped(
    path: Seq<char>,
    content: Seq<u8>,
    skip_chunking_over_bytes: u64,
    headline_each_bytes: usize,
)
    requires
        content.len() <= u64::MAX,
        !valid_utf8(content),
    ensures
        committed_step(
            valid_utf8(content),
            content.len() as u64,
            skip_chunking_over_bytes,
            headline_each_bytes,
        ) == CommittedStep::Binary,
        prepared_from_whole(
            path,
            content,
            content.len() as u64,
            blake3_hex(content),
            skip_chunking_over_bytes,
            headline_each_bytes,
        ) == prepared_binary(blake3_hex(content)),
{
}

/// What is not text is not read again; a text within the limit is read whole, and a longer one at
/// both ends, at least 32768 bytes of each.
pub proof fn lemma_what_is_read_again(len: u64, skip: u64, each: usize)
    ensures
        committed_step(false, len, skip, each) == CommittedStep::Binary,
        len <= skip ==> committed_step(true, len, skip, each) == CommittedStep::Whole,
        len > skip && each <= 32768 ==> committed_step(true, len, skip, each)
            == (CommittedStep::Ends { each: 32768 }),
        len > skip && each > 32768 ==> committed_step(true, len, skip, each)
            == (CommittedStep::Ends { each }),
{
}

/// The head of a content is read up to its last whole character: the longest beginning of it that
/// is UTF-8.
pub proof fn lemma_longest_prefix(b: Seq<u8>, k: int)
    requires
        0 <= k <= b.len(),
        valid_utf8(b.take(k)),
    ensures
        utf8_prefix_of(b).len() <= b.len(),
        utf8_prefix_of(b) == b.take(utf8_prefix_of(b).len() as int),
        utf8_prefix_of(b).len() >= k,
        b.len() > 0 ==> valid_utf8(utf8_prefix_of(b)) || utf8_prefix_of(b).len() == 0,
    decreases b.len(),
{
    assert(b.take(b.len() as int) =~= b);
    if !(b.len() == 0 || valid_utf8(b)) {
        let t = b.drop_last();
        assert(k < b.len());
        assert(t.take(k) =~= b.take(k));
        lemma_longest_prefix(t, k);
        assert(t.take(utf8_prefix_of(t).len() as int) =~= b.take(utf8_prefix_of(t).len() as int));
    }
}

/// The tail of a content is read from its first whole character on: up to three bytes of one that
/// was cut are left out, and as few as possible.
pub proof fn lemma_longest_suffix(b: Seq<u8>, dropped: nat)
    ensures
        dropped <= 3 && dropped <= b.len() && valid_utf8(b.skip(dropped as int)) ==> utf8_suffix_of(
            b,
            0,
        ) is Some && utf8_suffix_of(b, 0)->0.len() >= b.len() - dropped,
        utf8_suffix_of(b, 0) matches Some(t) ==> valid_utf8(t) && t.len() <= b.len() && b.len()
            - t.len() <= 3 && t == b.skip(b.len() - t.len()),
{
    reveal_with_fuel(utf8_suffix_of, 5);
}

/// What was committed is read again whole where it is a short text, by its ends where it is a long
/// one, and not at all where it is none.
pub proof fn lemma_what_is_done_next(
    len: u64,
    skip: u64,
    each: usize,
    text: CommittedStep,
    binary: CommittedStep,
    r: u64,
)
    requires
        call_ensures(next_committed_step, (true, len, skip, each), text),
        call_ensures(next_committed_step, (false, len, skip, each), binary),
        call_ensures(tail_offset, (len, each), r),
    ensures
        binary == CommittedStep::Binary,
        text == CommittedStep::Whole <==> len <= skip,
        len > skip ==> text is Ends,
        len >= each ==> r + each == len,
        len < each ==> r == 0,
{
    lemma_what_is_read_again(len, skip, each);
}

} // verus!
