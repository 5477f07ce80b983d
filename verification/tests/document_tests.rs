use encoding_rs::{Encoding, UTF_16LE, UTF_8, WINDOWS_1252};
use mist::document::{decode_chunk, detect_encoding, Document, DocumentReader};
use ropey::Rope;

#[test]
fn utf8_bom_is_detected() {
    let (enc, bom) = detect_encoding(b"\xEF\xBB\xBFhello", None);
    assert_eq!(enc, UTF_8);
    assert!(bom);
}

#[test]
fn utf16_bom_is_detected() {
    let (enc, bom) = detect_encoding(b"\xFF\xFEh\x00", None);
    assert_eq!(enc, UTF_16LE);
    assert!(bom);
}

#[test]
fn requested_encoding_wins_over_bom() {
    let (enc, bom) = detect_encoding(b"\xEF\xBB\xBFhello", Some(WINDOWS_1252));
    assert_eq!(enc, WINDOWS_1252);
    assert!(!bom);
}

#[test]
fn plain_text_has_no_bom() {
    let (_, bom) = detect_encoding(b"hello\nworld\n", None);
    assert!(!bom);
    let (_, empty_bom) = detect_encoding(b"", None);
    assert!(!empty_bom);
}

#[test]
fn document_lines() {
    let d = Document::new(Rope::from_str("Hello\nWorld\nCole\nIs\nGreat"), UTF_8, false);
    assert_eq!(d.line_count(), 5);
    assert_eq!(d.line(3).to_string(), "Is\n");
    assert_eq!(d.line_idx(7), 1);
    assert_eq!(d.line_start(2), 12);
    assert_eq!(d.encoding(), UTF_8);
    assert!(!d.has_bom());
}

#[test]
fn byte_offsets_count_utf8_bytes() {
    let d = Document::new(Rope::from_str("héllo\n"), UTF_8, false);
    let line = d.line(0);
    assert_eq!(d.char_to_byte_in_line(0, line), 0);
    assert_eq!(d.char_to_byte_in_line(2, line), 3);
    assert_eq!(d.char_to_byte_in_line(6, line), 7);
}

#[test]
fn new_buffer_is_one_empty_line() {
    let d = Document::new_buffer(None);
    assert_eq!(d.rope().to_string(), "\n");
    assert_eq!(d.encoding(), UTF_8);
    assert!(!d.has_bom());
    let w = Document::new_buffer(Some(WINDOWS_1252));
    assert_eq!(w.encoding(), WINDOWS_1252);
}

const BUF_SIZE: usize = 8192;

/// Reads `bytes` in chunks of `BUF_SIZE`, as a file is read, and decodes them.
fn read(bytes: &[u8], enc: Option<&'static Encoding>) -> (Rope, &'static Encoding, bool) {
    let mut chunks = bytes.chunks(BUF_SIZE);
    let mut reader = DocumentReader::start(chunks.next().unwrap_or(&[]), enc);
    while !reader.is_done() {
        reader.read(chunks.next().unwrap_or(&[]));
    }
    let document = reader.finish();
    (document.rope().clone(), document.encoding(), document.has_bom())
}

#[test]
fn reads_plain_utf8() {
    let (rope, enc, bom) = read(b"hello\nworld\n", None);
    assert_eq!(rope.to_string(), "hello\nworld\n");
    assert_eq!(enc, UTF_8);
    assert!(!bom);
}

#[test]
fn rope_returns_proper_line_count() {
    let (rope, _, _) = read(b"1line\n2line\n3line", None);
    assert_eq!(rope.len_lines(), 3);
}

#[test]
fn rope_returns_proper_line() {
    let (rope, _, _) = read(b"Hello\nWorld\nCole\nIs\nGreat", None);
    assert_eq!(rope.line(3).to_string(), "Is\n".to_string());
}

#[test]
fn empty_input_gives_rope() {
    let (rope, _, bom) = read(b"", None);
    assert_eq!(rope.to_string(), "");
    assert!(!bom);
}

#[test]
fn multibyte_utf8_preserve() {
    let s = "café — 日本語 🚀\n";
    let (rope, _, _) = read(s.as_bytes(), None);
    assert_eq!(rope.to_string(), s);
}

#[test]
fn utf8_bom_detected_and_stripped() {
    let mut data = vec![0xEF, 0xBB, 0xBF];
    data.extend_from_slice("hello".as_bytes());
    let (rope, enc, bom) = read(&data, None);
    assert_eq!(enc, UTF_8);
    assert!(bom);
    assert_eq!(rope.to_string(), "hello");
}

#[test]
fn input_larger_than_buffer_spans_chunks() {
    let s = "abcsdfadsfadsfl\n".repeat(2000);
    let (rope, _, _) = read(s.as_bytes(), None);
    assert_eq!(rope.to_string(), s);
    assert_eq!(rope.len_lines(), 2001);
}

#[test]
fn windows_1252_overrides_expands_bytes() {
    let (rope, enc, _) = read(&[b'a', 0xE9, b'z'], Some(WINDOWS_1252));
    assert_eq!(enc, WINDOWS_1252);
    assert_eq!(rope.to_string(), "aéz");
}

#[test]
fn output_full_branch_when_decode_expands_past_buffer() {
    let (rope, _, _) = read(&vec![0xE9u8; 5000], Some(WINDOWS_1252));
    assert_eq!(rope.to_string(), "é".repeat(5000));
}

#[test]
fn decoding_fills_pieces_of_bounded_size() {
    let mut decoder = WINDOWS_1252.new_decoder();
    let mut pieces = vec!["kept".to_string()];
    decode_chunk(&mut decoder, &vec![0xE9u8; 5000], true, &mut pieces);
    assert_eq!(pieces[0], "kept");
    assert!(pieces.len() >= 3);
    assert_eq!(pieces[1..].concat(), "é".repeat(5000));
}

#[test]
fn pieces_join_into_the_document() {
    let pieces = vec!["ab".to_string(), String::new(), "c\nd".to_string()];
    let document = Document::from_pieces(&pieces, UTF_8, true);
    assert_eq!(document.rope().to_string(), "abc\nd");
    assert!(document.has_bom());
    assert_eq!(document.line_count(), 2);
}

#[test]
fn reading_in_any_chunks_gives_one_text() {
    let text = "naïve café — 日本語\n".repeat(300);
    let bytes = text.as_bytes();
    for size in [1usize, 2, 3, 7, 4096] {
        let mut chunks = bytes.chunks(size);
        let mut reader = DocumentReader::start(chunks.next().unwrap_or(&[]), None);
        while !reader.is_done() {
            reader.read(chunks.next().unwrap_or(&[]));
        }
        assert_eq!(reader.finish().rope().to_string(), text);
    }
}

#[test]
fn a_split_sequence_at_the_end_is_replaced() {
    let mut reader = DocumentReader::start(b"ab\xE6\x97", Some(UTF_8));
    reader.read(b"");
    assert_eq!(reader.finish().rope().to_string(), "ab\u{FFFD}");
}

#[test]
fn a_mark_decides_the_decoding_even_when_an_encoding_is_asked_for() {
    let mut reader = DocumentReader::start(b"\xEF\xBB\xBFcaf\xC3\xA9", Some(WINDOWS_1252));
    reader.read(b"");
    let document = reader.finish();
    assert_eq!(document.rope().to_string(), "café");
    assert_eq!(document.encoding(), WINDOWS_1252);
    assert!(!document.has_bom());
}
