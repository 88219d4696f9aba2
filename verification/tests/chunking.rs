use scry::chunking::{
    chunk_text, headline_only_chunk, headline_only_chunk_bounded, markdown_heading,
    MARKDOWN_SECTION_MAX_BYTES, PLAIN_TEXT_MAX_CHUNK_BYTES,
};
use scry::committed::{
    next_committed_step, prepare_from_ends, prepare_from_whole, tail_offset, utf8_prefix,
    utf8_suffix, CommittedStep, ContentDigest, Utf8Check,
};
use scry::file_indexing::{
    prepare_file_indexing, prepare_file_indexing_from_utf8,
    prepare_file_indexing_headline_only_from_head_tail, prepare_non_utf8_file_indexing,
    IndexingPolicyDb, DEFAULT_HEADLINE_EACH_BYTES, DEFAULT_SKIP_CHUNKING_OVER_BYTES,
};
use scry::model::{NodeAttrs, NodeKind, NodeRecord};
use scry::nodes::{put_file_with_prepared, put_target, ExistingFile};
use scry::paths::normalized_index_path;
use scry::utf8_text::{
    byte_len, ceil_char_boundary, count_lines, find_line_end, floor_char_boundary,
    line_numbers_for_offset_range, slice_text,
};

#[test]
fn markdown_section_over_cap_is_split_by_plain_text() {
    let mut body = String::with_capacity(MARKDOWN_SECTION_MAX_BYTES * 2 + 64);
    body.push_str("# big\n");
    for i in 0..(MARKDOWN_SECTION_MAX_BYTES * 2 / 32) {
        body.push_str(&format!("line {i:08} padding padding\n"));
    }
    let chunks = chunk_text("huge.md", &body);

    assert!(
        chunks.len() > 1,
        "oversized markdown section must be split; got {}",
        chunks.len()
    );
    for (idx, c) in chunks.iter().enumerate() {
        assert!(
            c.content.len() <= PLAIN_TEXT_MAX_CHUNK_BYTES + 512,
            "chunk[{idx}] is {} bytes, exceeds plain-text cap",
            c.content.len()
        );
        assert!(
            c.context_path.starts_with("huge.md#"),
            "chunk[{idx}] must keep markdown section context, got {}",
            c.context_path
        );
    }
}

#[test]
fn markdown_small_section_fits_in_single_chunk() {
    let body = "# small\nhello world\nline 2\nline 3\n";
    let chunks = chunk_text("small.md", body);
    assert_eq!(chunks.len(), 1);
    assert_eq!(chunks[0].context_path, "small.md#small");
    assert!(chunks[0].content.contains("hello world"));
}

#[test]
fn markdown_no_headings_still_splits_by_plain_text_when_oversized() {
    let line = "abcdefghij".repeat(64);
    let mut body = String::new();
    for _ in 0..200 {
        body.push_str(&line);
        body.push('\n');
    }
    let chunks = chunk_text("no-heading.md", &body);
    assert!(
        chunks.len() > 1,
        "no-heading oversized markdown must still split"
    );
    for c in &chunks {
        assert!(
            c.content.len() <= PLAIN_TEXT_MAX_CHUNK_BYTES + 512,
            "chunk exceeds cap: {}",
            c.content.len()
        );
        assert_eq!(c.context_path, "no-heading.md#document");
    }
}

#[test]
fn plain_text_chunks_respect_cap() {
    let body = "x".repeat(PLAIN_TEXT_MAX_CHUNK_BYTES * 3 + 17);
    let chunks = chunk_text("huge.txt", &body);
    assert!(chunks.len() >= 3);
    for c in &chunks {
        assert!(c.content.len() <= PLAIN_TEXT_MAX_CHUNK_BYTES + 512);
        assert_eq!(c.context_path, "huge.txt");
    }
}

#[test]
fn plain_text_windows_overlap() {
    let body = "x".repeat(5000);
    let chunks = chunk_text("a.txt", &body);
    let sizes: Vec<usize> = chunks.iter().map(|c| c.content.len()).collect();
    assert_eq!(sizes, vec![2048, 2048, 1416]);
}

#[test]
fn windows_end_behind_the_last_newline() {
    let line = format!("{}\n", "y".repeat(99));
    let body = line.repeat(30);
    let chunks = chunk_text("lines.log", &body);
    assert_eq!(chunks[0].content.len(), 2000);
    assert!(chunks[0].content.ends_with('\n'));
    assert_eq!((chunks[0].start_line, chunks[0].end_line), (1, 20));
    let last = chunks.last().unwrap();
    assert!(body.ends_with(last.content.as_str()));
}

#[test]
fn multibyte_text_is_cut_between_characters() {
    let body = "é".repeat(2000);
    let chunks = chunk_text("é.txt", &body);
    for c in &chunks {
        assert!(c.content.len() <= PLAIN_TEXT_MAX_CHUNK_BYTES);
        assert!(c.content.chars().all(|x| x == 'é'));
    }
    let odd = format!("a{}", "é".repeat(2000));
    assert_eq!(chunk_text("odd.txt", &odd)[0].content.len(), 2047);
}

#[test]
fn markdown_sections_are_named_after_headings() {
    let body = "intro\n# Plan\nline 1\nline 2\n\n## Details\nalpha\nbeta\n";
    let chunks = chunk_text("docs/note.md", body);
    let names: Vec<&str> = chunks.iter().map(|c| c.context_path.as_str()).collect();
    assert_eq!(
        names,
        vec![
            "docs/note.md#document",
            "docs/note.md#Plan",
            "docs/note.md#Details"
        ]
    );
    assert!(chunks.iter().all(|c| c.end_line >= c.start_line));
    assert_eq!((chunks[1].start_line, chunks[1].end_line), (2, 5));
}

#[test]
fn headings_begin_with_marks() {
    assert_eq!(markdown_heading("## Title "), Some((2, "Title".to_string())));
    assert_eq!(markdown_heading("#Title"), Some((1, "Title".to_string())));
    assert_eq!(markdown_heading("#"), None);
    assert_eq!(markdown_heading("plain"), None);
    assert_eq!(markdown_heading("####### seven"), None);
}

#[test]
fn an_empty_text_has_one_chunk() {
    let chunks = chunk_text("empty.txt", "");
    assert_eq!(chunks.len(), 1);
    assert_eq!(chunks[0].content, "");
}

#[test]
fn headlines_take_both_ends() {
    let body = format!("{}{}", "a".repeat(6000), "b".repeat(6000));
    let c = headline_only_chunk("big.txt", &body, 5000);
    assert_eq!(c.context_path, "big.txt#headline_only");
    assert_eq!(
        c.content,
        format!("{}\n…\n{}", "a".repeat(5000), "b".repeat(5000))
    );
    let short = headline_only_chunk("big.txt", "short", 5000);
    assert_eq!(short.content, "short");
    let bounded = headline_only_chunk_bounded("p", 10, "head", "tail", 0);
    assert_eq!(bounded.content, "headtail");
    let cut = headline_only_chunk_bounded("p", 8193, "head", "tail", 0);
    assert_eq!(cut.content, "head\n…\ntail");
}

#[test]
fn lines_are_counted_from_one() {
    assert_eq!(count_lines(""), 1);
    assert_eq!(count_lines("a\nb\n"), 2);
    assert_eq!(count_lines("a\nb\nc"), 3);
    assert_eq!(line_numbers_for_offset_range("a\nb\nc\n", 2, 4), (2, 2));
    assert_eq!(line_numbers_for_offset_range("a\nb\nc\n", 0, 6), (1, 3));
    assert_eq!(find_line_end("ab\ncd", 0), 3);
}

#[test]
fn boundaries_of_characters() {
    let s = "aé€😀";
    assert_eq!(byte_len(s), 10);
    assert_eq!(floor_char_boundary(s, 2), 1);
    assert_eq!(ceil_char_boundary(s, 2), 3);
    assert_eq!(floor_char_boundary(s, 9), 6);
    assert_eq!(ceil_char_boundary(s, 7), 10);
    assert_eq!(slice_text(s, 1, 6), "é€");
}

#[test]
fn digests_are_blake3() {
    let p = prepare_file_indexing("a.txt", b"", 100, 100);
    assert_eq!(
        p.digest_hex,
        "af1349b9f5f9a1a6a0404dea36dcc9499bcb25c9adc112b7cc9a93cae41f3262"
    );
    assert_eq!(p.digest_hex, blake3::hash(b"").to_hex().to_string());
}

#[test]
fn digests_do_not_depend_on_the_pieces() {
    let mut d = ContentDigest::new();
    d.update(b"hello ");
    d.update(b"");
    d.update(b"world");
    assert_eq!(d.hex(), blake3::hash(b"hello world").to_hex().to_string());
    assert_eq!(
        d.hex(),
        prepare_file_indexing("x", b"hello world", 100, 100).digest_hex
    );
}

fn synth_bytes(len: usize) -> Vec<u8> {
    let mut v = Vec::with_capacity(len);
    for i in 0..len {
        v.push((i % 251) as u8);
    }
    v
}

fn docs() -> NodeRecord {
    NodeRecord {
        node_id: "docs".to_string(),
        parent_node_id: Some("root".to_string()),
        name: "docs".to_string(),
        path: "docs".to_string(),
        attrs: NodeAttrs {
            kind: NodeKind::Dir,
            size: 0,
            mtime_unix_nano: 0,
            mode: 0o755,
            version: 1,
            content_hash: String::new(),
            mime: String::new(),
        },
    }
}

fn created_file(node_id: &str) -> ExistingFile {
    ExistingFile { node_id: node_id.to_string(), version: 1, mime: String::new() }
}

#[test]
fn put_file_streaming_helpers_match_put_file() {
    for size in [16 * 1024usize, 1024 * 1024, 32 * 1024 * 1024] {
        let bytes = synth_bytes(size);
        let mut digest = ContentDigest::new();
        let mut text = Utf8Check::new();
        for piece in bytes.chunks(64 * 1024) {
            digest.update(piece);
            text.feed(piece);
        }
        assert_eq!(
            next_committed_step(
                text.is_text(),
                bytes.len() as u64,
                DEFAULT_SKIP_CHUNKING_OVER_BYTES,
                DEFAULT_HEADLINE_EACH_BYTES,
            ),
            CommittedStep::Binary
        );
        let streamed = prepare_non_utf8_file_indexing(digest.hex());
        let r1 = put_file_with_prepared(
            put_target("docs/a.bin").expect("path"),
            Some(docs()),
            Some(created_file("a")),
            "new".to_string(),
            None,
            u64::try_from(bytes.len()).expect("len"),
            prepare_file_indexing(
                &normalized_index_path("docs/a.bin").expect("normalize"),
                &bytes,
                DEFAULT_SKIP_CHUNKING_OVER_BYTES,
                DEFAULT_HEADLINE_EACH_BYTES,
            ),
        )
        .expect("put_file");
        let r2 = put_file_with_prepared(
            put_target("docs/b.bin").expect("path"),
            Some(docs()),
            Some(created_file("b")),
            "new".to_string(),
            None,
            u64::try_from(bytes.len()).expect("len"),
            streamed,
        )
        .expect("put_file_with_prepared");

        assert_eq!(r1.file.content_hash, r2.file.content_hash);
        assert_eq!(r1.file.size, r2.file.size);
        assert_eq!(r1.file.version, r2.file.version);
        assert_eq!(r1.indexing_policy, r2.indexing_policy);

        assert_eq!(r1.chunks.len(), r2.chunks.len());
        for (ca, cb) in r1.chunks.iter().zip(r2.chunks.iter()) {
            assert_eq!(ca.start_line, cb.start_line);
            assert_eq!(ca.end_line, cb.end_line);
            assert_eq!(ca.content, cb.content);
        }
    }
}

#[test]
fn files_are_indexed_by_policy() {
    let full = prepare_file_indexing("a.txt", b"hello", 100, 100);
    assert_eq!(full.indexing_policy, IndexingPolicyDb::Full);
    assert!(!full.headline_only);
    assert_eq!(full.chunks.len(), 1);
    assert_eq!(full.chunks[0].content, "hello");
    let headline = prepare_file_indexing("a.txt", b"hello", 4, 100);
    assert_eq!(headline.indexing_policy, IndexingPolicyDb::HeadlineOnly);
    assert!(headline.headline_only);
    assert_eq!(headline.chunks[0].context_path, "a.txt#headline_only");
    let binary = prepare_file_indexing("a.bin", &[0xff, 0xfe], 100, 100);
    assert_eq!(binary.indexing_policy, IndexingPolicyDb::Skipped);
    assert_eq!(IndexingPolicyDb::Full.as_str(), "full");
    assert_eq!(IndexingPolicyDb::HeadlineOnly.as_str(), "headline_only");
    assert_eq!(IndexingPolicyDb::Skipped.as_str(), "skipped");
    assert!(IndexingPolicyDb::HeadlineOnly.headline_only_hint());
    assert!(!IndexingPolicyDb::Full.headline_only_hint());
}

#[test]
fn given_digests_are_kept() {
    let p = prepare_file_indexing_from_utf8("a", "text", 4, "d".to_string(), 10, 10);
    assert_eq!(p.digest_hex, "d");
    assert_eq!(p.chunks[0].content, "text");
    let h = prepare_file_indexing_headline_only_from_head_tail(
        "a",
        100000,
        "d".to_string(),
        10,
        "head",
        "tail",
    );
    assert_eq!(h.chunks[0].content, "head\n…\ntail");
}

#[test]
fn committed_content_is_read_as_needed() {
    assert_eq!(next_committed_step(false, 5, 10, 0), CommittedStep::Binary);
    assert_eq!(next_committed_step(true, 10, 10, 0), CommittedStep::Whole);
    assert_eq!(
        next_committed_step(true, 11, 10, 0),
        CommittedStep::Ends { each: 32768 }
    );
    assert_eq!(
        next_committed_step(true, 11, 10, 40000),
        CommittedStep::Ends { each: 40000 }
    );
    assert_eq!(tail_offset(100, 30), 70);
    assert_eq!(tail_offset(20, 30), 0);
}

#[test]
fn ends_of_texts_are_cut_at_characters() {
    let b = "a€b".as_bytes();
    assert_eq!(utf8_prefix(&b[..3]), "a");
    assert_eq!(utf8_prefix(&b[..4]), "a€");
    assert_eq!(utf8_prefix(&[0xff]), "");
    assert_eq!(utf8_suffix(&b[2..]), Some("b".to_string()));
    assert_eq!(utf8_suffix(b), Some("a€b".to_string()));
    assert_eq!(utf8_suffix(&[]), Some(String::new()));
    assert_eq!(utf8_suffix(&[0x41, 0xe2]), Some(String::new()));
    assert_eq!(utf8_suffix(&[0x41, 0x41, 0x41, 0x41, 0xe2]), None);
    let smile = "😀x".as_bytes();
    assert_eq!(utf8_suffix(&smile[1..]), Some("x".to_string()));
}

#[test]
fn committed_texts_are_indexed() {
    let p = prepare_from_whole("a.txt", b"hello", 5, "d".to_string(), 10, 10);
    assert_eq!(p.chunks[0].content, "hello");
    let e = "a€b".as_bytes();
    let p = prepare_from_ends("a.txt", 1_000_000, "d".to_string(), 10, &e[..3], &e[2..]);
    assert_eq!(p.chunks[0].content, "a\n…\nb");
    assert_eq!(p.indexing_policy, IndexingPolicyDb::HeadlineOnly);
    let broken = [0x41, 0x41, 0x41, 0x41, 0xe2];
    let p = prepare_from_ends("a.txt", 9, "d".to_string(), 10, b"a", &broken);
    assert_eq!(p.indexing_policy, IndexingPolicyDb::Skipped);
    assert_eq!((p.digest_hex.as_str(), p.chunks.len()), ("d", 0));
}

#[test]
fn content_that_ends_within_a_character_is_skipped() {
    let cut = [0x61, 0xe2, 0x82];
    let mut check = Utf8Check::new();
    check.feed(&cut);
    assert!(check.accepts());
    assert!(!check.is_text());
    assert_eq!(next_committed_step(check.is_text(), 3, 10, 10), CommittedStep::Binary);
    let read = prepare_from_whole("a.txt", &cut, 3, "d".to_string(), 10, 10);
    let put = prepare_file_indexing("a.txt", &cut, 10, 10);
    assert_eq!(read.indexing_policy, IndexingPolicyDb::Skipped);
    assert_eq!(put.indexing_policy, IndexingPolicyDb::Skipped);
    assert_eq!((read.digest_hex.as_str(), read.chunks.len()), ("d", 0));
    check.feed(&[0xac]);
    assert!(check.is_text());
}

#[test]
fn utf8_is_checked_piece_by_piece() {
    let text = "aé€😀 \u{d7ff}\u{e000}\u{10ffff}".as_bytes();
    for at in 0..=text.len() {
        let mut check = Utf8Check::new();
        check.feed(&text[..at]);
        assert!(check.accepts());
        assert_eq!(check.is_text(), std::str::from_utf8(&text[..at]).is_ok());
        check.feed(&text[at..]);
        assert!(check.is_text());
    }
    let broken: [&[u8]; 7] = [
        &[0xff],
        &[0xc0, 0x80],
        &[0xe0, 0x80],
        &[0xed, 0xa0],
        &[0xf4, 0x90],
        &[0x61, 0x80],
        &[0xe2, 0x41],
    ];
    for bytes in broken {
        let mut check = Utf8Check::new();
        check.feed(bytes);
        assert!(!check.accepts());
        check.feed(b"plain again");
        assert!(!check.accepts());
        assert!(!check.is_text());
    }
}

#[test]
fn committed_content_is_indexed_as_it_is_put() {
    let long = format!("{}€{}", "a".repeat(40000), "b".repeat(40000));
    for (content, skip, each) in [("hello\nworld", 100u64, 10usize), (long.as_str(), 100, 32768)] {
        let bytes = content.as_bytes();
        let mut digest = ContentDigest::new();
        let mut check = Utf8Check::new();
        for piece in bytes.chunks(7) {
            digest.update(piece);
            check.feed(piece);
        }
        let len = bytes.len() as u64;
        let read = match next_committed_step(check.is_text(), len, skip, each) {
            CommittedStep::Binary => prepare_non_utf8_file_indexing(digest.hex()),
            CommittedStep::Whole => {
                prepare_from_whole("a.txt", bytes, len, digest.hex(), skip, each)
            }
            CommittedStep::Ends { each: n } => {
                let from = tail_offset(len, n) as usize;
                prepare_from_ends("a.txt", len, digest.hex(), each, &bytes[..n], &bytes[from..])
            }
        };
        let put = prepare_file_indexing("a.txt", bytes, skip, each);
        assert_eq!(read.digest_hex, put.digest_hex);
        assert_eq!(read.indexing_policy, put.indexing_policy);
        assert_eq!(read.headline_only, put.headline_only);
        assert_eq!(read.chunks.len(), put.chunks.len());
        for (a, b) in read.chunks.iter().zip(put.chunks.iter()) {
            assert_eq!(a.content, b.content);
            assert_eq!(a.context_path, b.context_path);
        }
    }
}

#[test]
fn sections_leave_nothing_out_behind_the_first_heading() {
    let body = "\n  \n# A\none\n\n## B\ntwo\n";
    let chunks = chunk_text("a.md", body);
    let joined: String = chunks.iter().map(|c| c.content.as_str()).collect();
    assert_eq!(joined, "# A\none\n\n## B\ntwo\n");
    let with_intro = "intro\n# A\none\n";
    let chunks = chunk_text("a.md", with_intro);
    let joined: String = chunks.iter().map(|c| c.content.as_str()).collect();
    assert_eq!(joined, with_intro);
}

#[test]
fn long_sections_leave_nothing_out() {
    let mut body = String::from("# big\n");
    for i in 0..(MARKDOWN_SECTION_MAX_BYTES / 16) {
        body.push_str(&format!("line {i:08} padding\n"));
    }
    assert!(body.len() > MARKDOWN_SECTION_MAX_BYTES);
    let chunks = chunk_text("huge.md", &body);
    let mut covered = 0;
    let mut from = 0;
    for c in &chunks {
        let start = from + body[from..].find(c.content.as_str()).expect("a part of the text");
        assert!(start <= covered);
        covered = start + c.content.len();
        from = start + 1;
    }
    assert_eq!(covered, body.len());
    let blank = chunk_text("blank.md", " \n\n");
    assert_eq!((blank.len(), blank[0].content.as_str()), (1, " \n\n"));
}
