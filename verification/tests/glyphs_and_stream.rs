use ocrtool::font::{advance_sum, helvetica_width};
use ocrtool::model::Orientation;
use ocrtool::stream::{build_text_stream, text_advance, StreamToken};
use ocrtool::winansi::{encode_win_ansi, white_space};

fn token(orientation: Orientation, text: &str, fits: bool) -> StreamToken {
    StreamToken {
        orientation,
        text: text.to_string(),
        fits,
        height: b"12.0000".to_vec(),
        x: b"72.0000".to_vec(),
        y: b"700.5000".to_vec(),
        scale: b"95.2500".to_vec(),
    }
}

#[test]
fn helvetica_metrics() {
    assert_eq!(helvetica_width(b' '), 278);
    assert_eq!(helvetica_width(b'@'), 1015);
    assert_eq!(helvetica_width(b'A'), 667);
    assert_eq!(helvetica_width(b'5'), 556);
    assert_eq!(helvetica_width(b'i'), 222);
    assert_eq!(helvetica_width(0xE4), 556);
    assert_eq!(helvetica_width(0xC6), 1000);
    assert_eq!(helvetica_width(0xFF), 500);
}

#[test]
fn helvetica_fallback_for_unmapped_bytes() {
    assert_eq!(helvetica_width(0x00), 556);
    assert_eq!(helvetica_width(0x80), 556);
    assert_eq!(helvetica_width(0x9F), 556);
}

#[test]
fn advance_of_bytes() {
    assert_eq!(advance_sum(b"Hi"), 722 + 222);
    assert_eq!(advance_sum(b""), 0);
}

#[test]
fn winansi_replaces_non_latin1_and_trims() {
    assert_eq!(encode_win_ansi("\u{e4}b\u{20ac}  \t"), vec![0xE4, b'b', b'?']);
    assert_eq!(encode_win_ansi("  a b "), b"  a b".to_vec());
    assert_eq!(encode_win_ansi(" \u{a0}\u{2003}"), Vec::<u8>::new());
}

#[test]
fn unicode_white_space() {
    assert!(white_space(' '));
    assert!(white_space('\u{85}'));
    assert!(white_space('\u{2009}'));
    assert!(!white_space('\u{200B}'));
    assert!(!white_space('x'));
}

#[test]
fn text_advance_uses_trimmed_encoding() {
    assert_eq!(text_advance("Hi  "), 944);
    assert_eq!(text_advance("\u{4e2d}"), 556);
}

#[test]
fn empty_stream_has_only_frame() {
    let out = build_text_stream(&[]);
    assert_eq!(out, b"BT\n/OCR_F1 1 Tf\n3 Tr\nET\n".to_vec());
}

#[test]
fn stream_for_one_token() {
    let out = build_text_stream(&[token(Orientation::PageUp, "Hi \u{e4}\u{20ac} ", true)]);
    let expected = "BT\n/OCR_F1 1 Tf\n3 Tr\n12.0000 0 0 12.0000 72.0000 700.5000 Tm\n95.2500 Tz\n<486920E43F> Tj\nET\n";
    assert_eq!(String::from_utf8(out).unwrap(), expected);
}

#[test]
fn skipped_tokens_leave_no_trace() {
    let written = token(Orientation::PageUp, "ok", true);
    let all = vec![
        token(Orientation::PageRight, "rotated", true),
        token(Orientation::PageUp, "tiny", false),
        token(Orientation::PageUp, "   ", true),
        written,
        token(Orientation::PageDown, "down", true),
    ];
    let only = vec![token(Orientation::PageUp, "ok", true)];
    assert_eq!(build_text_stream(&all), build_text_stream(&only));
}
