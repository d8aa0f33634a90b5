use ocrtool::model::{
    char_byte_offsets, classify_token, is_selected_page, slice_chars, token_text, Orientation, TextAnchor,
    TextSegment, TokenInput, TokenOutcome,
};

fn anchor(segments: &[(u64, u64)]) -> TextAnchor {
    TextAnchor {
        text_segments: segments
            .iter()
            .map(|&(s, e)| TextSegment { start_index: s, end_index: e })
            .collect(),
    }
}

#[test]
fn offsets_of_ascii_text() {
    assert_eq!(char_byte_offsets("abc"), vec![0, 1, 2, 3]);
}

#[test]
fn offsets_of_empty_text() {
    assert_eq!(char_byte_offsets(""), vec![0]);
}

#[test]
fn offsets_of_multibyte_text() {
    let text = "a\u{e4}\u{20ac}\u{1F600}";
    let offsets = char_byte_offsets(text);
    assert_eq!(offsets, vec![0, 1, 3, 6, 10]);
    assert_eq!(*offsets.last().unwrap(), text.len());
}

#[test]
fn slice_by_character_index() {
    let text = "h\u{e4}lsinki \u{f6}\u{e5}";
    let offsets = char_byte_offsets(text);
    assert_eq!(slice_chars(text, &offsets, 1, 4), "\u{e4}ls");
    assert_eq!(slice_chars(text, &offsets, 9, 11), "\u{f6}\u{e5}");
    assert_eq!(slice_chars(text, &offsets, 0, 0), "");
}

#[test]
fn slice_past_the_end_is_clamped() {
    let text = "abc";
    let offsets = char_byte_offsets(text);
    assert_eq!(slice_chars(text, &offsets, 1, 99), "bc");
    assert_eq!(slice_chars(text, &offsets, 50, 99), "");
}

#[test]
fn token_text_joins_segments() {
    let text = "Hello wide world";
    let offsets = char_byte_offsets(text);
    let t = token_text(text, &offsets, &anchor(&[(0, 5), (11, 16)]));
    assert_eq!(t, "Helloworld");
}

#[test]
fn classify_rotated_token() {
    let text = "abc";
    let offsets = char_byte_offsets(text);
    let token = TokenInput {
        orientation: Some(Orientation::PageLeft),
        vertex_count: 4,
        text_anchor: anchor(&[(0, 3)]),
    };
    assert!(matches!(classify_token(text, &offsets, &token), TokenOutcome::Rotated(Orientation::PageLeft)));
}

#[test]
fn classify_token_without_vertices() {
    let text = "abc";
    let offsets = char_byte_offsets(text);
    let token = TokenInput { orientation: None, vertex_count: 0, text_anchor: anchor(&[(0, 3)]) };
    assert!(matches!(classify_token(text, &offsets, &token), TokenOutcome::NoVertices));
}

#[test]
fn classify_blank_token() {
    let text = "ab \t\n\u{3000}cd";
    let offsets = char_byte_offsets(text);
    let token = TokenInput { orientation: Some(Orientation::PageUp), vertex_count: 4, text_anchor: anchor(&[(2, 6)]) };
    assert!(matches!(classify_token(text, &offsets, &token), TokenOutcome::Blank));
    let empty = TokenInput { orientation: None, vertex_count: 4, text_anchor: anchor(&[]) };
    assert!(matches!(classify_token(text, &offsets, &empty), TokenOutcome::Blank));
}

#[test]
fn classify_overlaid_token_keeps_text() {
    let text = "ab cd";
    let offsets = char_byte_offsets(text);
    let token = TokenInput { orientation: None, vertex_count: 4, text_anchor: anchor(&[(1, 4)]) };
    match classify_token(text, &offsets, &token) {
        TokenOutcome::Text(t) => assert_eq!(t, "b c"),
        _ => panic!("token should be overlaid"),
    }
}

#[test]
fn page_selection() {
    assert!(is_selected_page(3, None));
    assert!(is_selected_page(3, Some(3)));
    assert!(!is_selected_page(3, Some(4)));
}

#[test]
fn default_orientation_is_page_up() {
    assert_eq!(Orientation::default(), Orientation::PageUp);
}
