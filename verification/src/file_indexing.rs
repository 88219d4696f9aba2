//! What is recorded of a file's content: its digest, and the chunks that make it searchable.
use crate::chunking::{
    chunk_text,
    chunk_views,
    headline_chunk,
    headline_of_text,
    headline_only_chunk,
    headline_only_chunk_bounded,
    headline_text,
    text_chunks,
    ChunkView,
    IndexedChunk,
};
use crate::utf8_text::lemma_str_bytes;
use vstd::prelude::*;
use vstd::string::StringSliceAdditionalSpecFns;
use vstd::utf8::{decode_utf8, valid_utf8};

verus! {

/// UTF-8 texts beyond this size are indexed by a headline only.
pub const DEFAULT_SKIP_CHUNKING_OVER_BYTES: u64 = 67108864;

/// Bytes taken from each end of a text for its headline.
pub const DEFAULT_HEADLINE_EACH_BYTES: usize = 32768;

#[derive(Debug, Clone, Copy, PartialEq, Eq, Structural)]
pub enum IndexingPolicyDb {
    Full,
    HeadlineOnly,
    Skipped,
}

impl IndexingPolicyDb {
    /// The name under which the policy is stored.
    pub open spec fn name(self) -> Seq<char> {
        match self {
            IndexingPolicyDb::Full => "full"@,
            IndexingPolicyDb::HeadlineOnly => "headline_only"@,
            IndexingPolicyDb::Skipped => "skipped"@,
        }
    }

    pub fn as_str(&self) -> (r: &'static str)
        ensures
            r@ == self.name(),
    {
        match self {
            IndexingPolicyDb::Full => "full",
            IndexingPolicyDb::HeadlineOnly => "headline_only",
            IndexingPolicyDb::Skipped => "skipped",
        }
    }

    pub fn headline_only_hint(&self) -> (r: bool)
        ensures
            r == (*self == IndexingPolicyDb::HeadlineOnly),
    {
        matches!(self, IndexingPolicyDb::HeadlineOnly)
    }
}

#[derive(Debug, Clone)]
pub struct PreparedFileIndexing {
    pub digest_hex: String,
    pub indexing_policy: IndexingPolicyDb,
    pub headline_only: bool,
    pub chunks: Vec<IndexedChunk>,
}

#[verifier::ext_equal]
pub struct PreparedView {
    pub digest_hex: Seq<char>,
    pub indexing_policy: IndexingPolicyDb,
    pub headline_only: bool,
    pub chunks: Seq<ChunkView>,
}

impl View for PreparedFileIndexing {
    type V = PreparedView;

    open spec fn view(&self) -> PreparedView {
        PreparedView {
            digest_hex: self.digest_hex@,
            indexing_policy: self.indexing_policy,
            headline_only: self.headline_only,
            chunks: chunk_views(self.chunks@),
        }
    }
}

/// A file whose content is not text: the digest alone.
pub open spec fn prepared_binary(digest_hex: Seq<char>) -> PreparedView {
    PreparedView {
        digest_hex,
        indexing_policy: IndexingPolicyDb::Skipped,
        headline_only: false,
        chunks: Seq::empty(),
    }
}

/// A file that is indexed by its headline.
pub open spec fn prepared_headline(digest_hex: Seq<char>, headline: ChunkView) -> PreparedView {
    PreparedView {
        digest_hex,
        indexing_policy: IndexingPolicyDb::HeadlineOnly,
        headline_only: true,
        chunks: seq![headline],
    }
}

/// A text file: all of its chunks, or its headline where it is over the limit.
pub open spec fn prepared_text(
    path: Seq<char>,
    text: Seq<char>,
    content_len: int,
    digest_hex: Seq<char>,
    skip_chunking_over_bytes: int,
    headline_each_bytes: int,
) -> PreparedView {
    if content_len > skip_chunking_over_bytes {
        prepared_headline(
            digest_hex,
            headline_chunk(path, headline_of_text(text, headline_each_bytes)),
        )
    } else {
        PreparedView {
            digest_hex,
            indexing_policy: IndexingPolicyDb::Full,
            headline_only: false,
            chunks: text_chunks(path, text),
        }
    }
}

/// What is recorded of a file with the bytes `content`.
pub open spec fn prepared_file(
    path: Seq<char>,
    content: Seq<u8>,
    digest_hex: Seq<char>,
    skip_chunking_over_bytes: int,
    headline_each_bytes: int,
) -> PreparedView {
    if valid_utf8(content) {
        prepared_text(
            path,
            decode_utf8(content),
            content.len() as int,
            digest_hex,
            skip_chunking_over_bytes,
            headline_each_bytes,
        )
    } else {
        prepared_binary(digest_hex)
    }
}

/// Rows for a binary file: its digest, and no chunks.
pub fn prepare_non_utf8_file_indexing(digest_hex: String) -> (r: PreparedFileIndexing)
    ensures
        r@ == prepared_binary(digest_hex@),
{
    let r = PreparedFileIndexing {
        digest_hex,
        indexing_policy: IndexingPolicyDb::Skipped,
        headline_only: false,
        chunks: Vec::new(),
    };
    proof {
        assert(chunk_views(r.chunks@) =~= Seq::empty());
    }
    r
}

fn prepared_with_headline(digest_hex: String, headline: IndexedChunk) -> (r: PreparedFileIndexing)
    ensures
        r@ == prepared_headline(digest_hex@, headline@),
{
    let ghost h = headline@;
    let mut chunks: Vec<IndexedChunk> = Vec::new();
    chunks.push(headline);
    proof {
        assert(chunk_views(chunks@) =~= seq![h]);
    }
    PreparedFileIndexing {
        digest_hex,
        indexing_policy: IndexingPolicyDb::HeadlineOnly,
        headline_only: true,
        chunks,
    }
}

/// Headline indexing for a file of which only the two ends are at hand.
pub fn prepare_file_indexing_headline_only_from_head_tail(
    normalized_path: &str,
    total_len: u64,
    digest_hex: String,
    headline_each_bytes: usize,
    head_utf8: &str,
    tail_utf8: &str,
) -> (r: PreparedFileIndexing)
    ensures
        r@ == prepared_headline(
            digest_hex@,
            headline_chunk(
                normalized_path@,
                headline_text(
                    (total_len as usize) as int,
                    head_utf8@,
                    tail_utf8@,
                    headline_each_bytes as int,
                ),
            ),
        ),
{
    let total = #[verifier::truncate]
    (total_len as usize);
    let headline = headline_only_chunk_bounded(
        normalized_path,
        total,
        head_utf8,
        tail_utf8,
        headline_each_bytes,
    );
    prepared_with_headline(digest_hex, headline)
}

/// Chunks a text, or takes its headline where `content_len` is over the limit. The digest is that
/// of the same content.
pub fn prepare_file_indexing_from_utf8(
    normalized_path: &str,
    text: &str,
    content_len: u64,
    digest_hex: String,
    skip_chunking_over_bytes: u64,
    headline_each_bytes: usize,
) -> (r: PreparedFileIndexing)
    ensures
        r@ == prepared_text(
            normalized_path@,
            text@,
            content_len as int,
            digest_hex@,
            skip_chunking_over_bytes as int,
            headline_each_bytes as int,
        ),
{
    if content_len > skip_chunking_over_bytes {
        let headline = headline_only_chunk(normalized_path, text, headline_each_bytes);
        return prepared_with_headline(digest_hex, headline);
    }
    PreparedFileIndexing {
        digest_hex,
        indexing_policy: IndexingPolicyDb::Full,
        headline_only: false,
        chunks: chunk_text(normalized_path, text),
    }
}

/// The BLAKE3 digest of `content`, in lower-case hexadecimal.
pub uninterp spec fn blake3_hex(content: Seq<u8>) -> Seq<char>;

/// `blake3::hash` and `Hash::to_hex`: the digest is a function of the bytes alone.
#[verifier::external_body]
fn digest_of(content: &[u8]) -> (r: String)
    ensures
        r@ == blake3_hex(content@),
{
    blake3::hash(content).to_hex().to_string()
}

/// `std::str::from_utf8`: the text of exactly these bytes, for valid UTF-8 and nothing else.
#[verifier::external_body]
pub(crate) fn text_of_utf8(content: &[u8]) -> (r: Option<&str>)
    ensures
        r is Some <==> valid_utf8(content@),
        r matches Some(text) ==> text.spec_bytes() == content@,
{
    std::str::from_utf8(content).ok()
}

/// Digest and chunks of a file that is in memory. Content that is not UTF-8 is recorded without
/// chunks.
pub fn prepare_file_indexing(
    normalized_path: &str,
    content: &[u8],
    skip_chunking_over_bytes: u64,
    headline_each_bytes: usize,
) -> (r: PreparedFileIndexing)
    ensures
        r@ == prepared_file(
            normalized_path@,
            content@,
            blake3_hex(content@),
            skip_chunking_over_bytes as int,
            headline_each_bytes as int,
        ),
{
    let digest_hex = digest_of(content);
    let size = content.len() as u64;
    match text_of_utf8(content) {
        Some(text) => {
            proof {
                lemma_str_bytes(text);
            }
            prepare_file_indexing_from_utf8(
                normalized_path,
                text,
                size,
                digest_hex,
                skip_chunking_over_bytes,
                headline_each_bytes,
            )
        },
        None => prepare_non_utf8_file_indexing(digest_hex),
    }
}

/// The headline flag is set exactly under the headline policy, and only skipped files are without
/// chunks.
pub proof fn lemma_prepared_file(
    path: Seq<char>,
    content: Seq<u8>,
    digest_hex: Seq<char>,
    skip_chunking_over_bytes: int,
    headline_each_bytes: int,
)
    ensures
        ({
            let p = prepared_file(
                path,
                content,
                digest_hex,
                skip_chunking_over_bytes,
                headline_each_bytes,
            );
            &&& p.digest_hex == digest_hex
            &&& p.headline_only <==> p.indexing_policy == IndexingPolicyDb::HeadlineOnly
            &&& p.chunks.len() == 0 <==> p.indexing_policy == IndexingPolicyDb::Skipped
            &&& p.indexing_policy == IndexingPolicyDb::Skipped <==> !valid_utf8(content)
        }),
{
    if valid_utf8(content) {
        crate::chunking::lemma_text_has_chunks(path, decode_utf8(content));
    }
}

/// What is not UTF-8 is skipped, a text over the limit is recorded by its headline, and any other
/// by its chunks.
pub proof fn lemma_policies(
    path: Seq<char>,
    content: Seq<u8>,
    digest_hex: Seq<char>,
    skip_chunking_over_bytes: int,
    headline_each_bytes: int,
)
    ensures
        ({
            let p = prepared_file(
                path,
                content,
                digest_hex,
                skip_chunking_over_bytes,
                headline_each_bytes,
            );
            &&& !valid_utf8(content) ==> p.indexing_policy == IndexingPolicyDb::Skipped
                && p.chunks.len() == 0
            &&& valid_utf8(content) && content.len() > skip_chunking_over_bytes ==> {
                &&& p.indexing_policy == IndexingPolicyDb::HeadlineOnly
                &&& p.chunks.len() == 1
                &&& p.chunks[0].context_path == path + "#headline_only"@
                &&& p.chunks[0].content == crate::chunking::headline_of_text(
                    decode_utf8(content),
                    headline_each_bytes,
                )
            }
            &&& valid_utf8(content) && content.len() <= skip_chunking_over_bytes ==> {
                &&& p.indexing_policy == IndexingPolicyDb::Full
                &&& p.chunks == text_chunks(path, decode_utf8(content))
            }
            &&& p.digest_hex == digest_hex
            &&& p.headline_only <==> p.indexing_policy == IndexingPolicyDb::HeadlineOnly
        }),
        IndexingPolicyDb::Full.name() == "full"@,
        IndexingPolicyDb::HeadlineOnly.name() == "headline_only"@,
        IndexingPolicyDb::Skipped.name() == "skipped"@,
{
}

/// A text is searched whole up to its limit and by its ends beyond; what is no text is not.
pub proof fn lemma_files_are_prepared(
    path: &str,
    content: &[u8],
    skip: u64,
    each: usize,
    r: PreparedFileIndexing,
)
    requires
        call_ensures(prepare_file_indexing, (path, content, skip, each), r),
    ensures
        !valid_utf8(content@) ==> r@.indexing_policy == IndexingPolicyDb::Skipped && r@.chunks.len()
            == 0,
        valid_utf8(content@) && content@.len() <= skip ==> r@.indexing_policy
            == IndexingPolicyDb::Full && r@.chunks == text_chunks(path@, decode_utf8(content@)),
        valid_utf8(content@) && content@.len() > skip ==> r@.indexing_policy
            == IndexingPolicyDb::HeadlineOnly && r@.chunks.len() == 1,
        r@.digest_hex == blake3_hex(content@),
{
    lemma_policies(path@, content@, blake3_hex(content@), skip as int, each as int);
}

} // verus!
