use session_core::transport::finish_utf8;
use session_core::transport::complete_utf8_prefix;

// '中' = E4 B8 AD

#[test]
fn cjk_split_across_chunks() {
    let mut pending: Vec<u8> = Vec::new();
    assert_eq!(complete_utf8_prefix(&mut pending, &[0xE4, 0xB8]), "");
    assert_eq!(pending, vec![0xE4, 0xB8]);
    assert_eq!(complete_utf8_prefix(&mut pending, &[0xAD]), "中");
    assert!(pending.is_empty());
}

#[test]
fn ascii_passes_through() {
    let mut pending: Vec<u8> = Vec::new();
    assert_eq!(complete_utf8_prefix(&mut pending, b"hello"), "hello");
    assert!(pending.is_empty());
}

#[test]
fn lone_invalid_byte_emits_replacement_immediately() {
    let mut pending: Vec<u8> = Vec::new();
    assert_eq!(complete_utf8_prefix(&mut pending, &[0xFF]), "\u{FFFD}");
    assert!(pending.is_empty(), "invalid byte must not stall the stream");
}

#[test]
fn invalid_byte_then_valid_data_recovered() {
    let mut pending: Vec<u8> = Vec::new();
    assert_eq!(complete_utf8_prefix(&mut pending, &[0xFF, b'a']), "\u{FFFD}a");
    assert!(pending.is_empty());
}

// ---- added ----

#[test]
fn agrees_with_std_lossy_decoding_on_malformed_input() {
    let cases: Vec<Vec<u8>> = vec![
        vec![0xE0, 0x80, 0x80],
        vec![0xED, 0xA0, 0x80, b'x'],
        vec![0xF4, 0x90, 0x80, 0x80],
        vec![0xF0, 0x9F, 0x98, 0x80, 0xC3, 0x28],
        vec![0xC0, 0xAF, 0xE2, 0x82, 0xAC],
        vec![0x80, 0xBF, b'z'],
        "héllo wörld 🎉".as_bytes().to_vec(),
    ];
    for c in cases {
        let mut pending: Vec<u8> = Vec::new();
        let got = complete_utf8_prefix(&mut pending, &c);
        assert_eq!(got, String::from_utf8_lossy(&c), "{c:?}");
        assert!(pending.is_empty());
    }
}

#[test]
fn four_byte_char_split_everywhere_gives_same_text() {
    let bytes = "a😀b中".as_bytes();
    for cut in 0..=bytes.len() {
        let mut pending: Vec<u8> = Vec::new();
        let mut text = complete_utf8_prefix(&mut pending, &bytes[..cut]);
        text.push_str(&complete_utf8_prefix(&mut pending, &bytes[cut..]));
        assert_eq!(text, "a😀b中", "cut at {cut}");
        assert!(pending.is_empty());
    }
}

#[test]
fn unfinished_tail_is_kept_after_replacement() {
    let mut pending: Vec<u8> = Vec::new();
    assert_eq!(complete_utf8_prefix(&mut pending, &[0xFF, 0xF0, 0x9F]), "\u{FFFD}");
    assert_eq!(pending, vec![0xF0, 0x9F]);
}

#[test]
fn valid_text_in_any_number_of_chunks_leaves_nothing_pending() {
    let text = "中文 ok 😀 é";
    let bytes = text.as_bytes();
    for size in 1..=5 {
        let mut pending: Vec<u8> = Vec::new();
        let mut out = String::new();
        for chunk in bytes.chunks(size) {
            out.push_str(&complete_utf8_prefix(&mut pending, chunk));
        }
        assert_eq!(out, text);
        assert!(pending.is_empty());
    }
}

#[test]
fn what_is_pending_at_the_end_is_not_dropped() {
    assert_eq!(finish_utf8(b""), "");
    assert_eq!(finish_utf8(b"ab"), "ab");
    for bytes in [&[0xE4u8, 0xB8][..], &[0xF0, 0x9F, 0x98], &[b'a', 0xFF, 0xE4], &[0xC3]] {
        assert_eq!(finish_utf8(bytes), String::from_utf8_lossy(bytes));
    }
}
