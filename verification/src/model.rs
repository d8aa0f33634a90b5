//! The Document AI shard model: the shard text addressed by Unicode code
//! point, the text segments of tokens, and which tokens are overlaid.

use vstd::prelude::*;
use crate::utf8::{
    byte_offset, lemma_byte_offset_is_boundary, lemma_byte_offset_monotone, lemma_byte_offset_step,
    lemma_byte_offset_strict, lemma_encode_injective, lemma_encode_split, utf8_width,
};
use vstd::utf8::{
    encode_utf8, encode_utf8_valid_utf8, is_char_boundary, is_char_boundary_iff_not_is_continuation_byte,
    is_char_boundary_start_end_of_seq, valid_utf8, valid_utf8_split,
};
use vstd::string::{StringExecFns, StringSliceAdditionalSpecFns};
use crate::winansi::{is_blank, is_white_space, lemma_blank_iff_trimmed_empty, white_space};

verus! {

/// Sharding information of one Document AI output file.
pub struct ShardInfo {
    /// Position of the shard among all shards (absent on shard 0, hence 0).
    pub shard_index: u64,
    pub shard_count: u64,
    /// Global character offset at which this shard's `text` starts.
    pub text_offset: u64,
}

impl Default for ShardInfo {
    fn default() -> (info: Self)
        ensures
            info.shard_index == 0 && info.shard_count == 0 && info.text_offset == 0,
    {
        ShardInfo { shard_index: 0, shard_count: 0, text_offset: 0 }
    }
}

/// Pixel dimensions of a scanned page.
pub struct Dimension {
    pub width: u32,
    pub height: u32,
}

/// The pieces of the shard text that make up one token.
pub struct TextAnchor {
    pub text_segments: Vec<TextSegment>,
}

/// A range of Unicode code point indices into the shard text.
pub struct TextSegment {
    /// Absent when 0.
    pub start_index: u64,
    pub end_index: u64,
}

/// Reading direction of a token relative to the page.
#[derive(Clone, Copy, PartialEq, Eq, Structural, Debug)]
pub enum Orientation {
    PageUp,
    PageRight,
    PageDown,
    PageLeft,
}

impl Default for Orientation {
    fn default() -> (o: Self)
        ensures
            o == Orientation::PageUp,
    {
        Orientation::PageUp
    }
}

/// Lookup table from character index to byte offset in `text`: it has one
/// entry per character and a final entry holding `text.len()`.
pub fn char_byte_offsets(text: &str) -> (offsets: Vec<usize>)
    ensures
        is_offset_table(text@, offsets@),
        offsets@[text@.len() as int] == text.spec_bytes().len(),
{
    let total = text.as_bytes().len();
    let mut offsets: Vec<usize> = Vec::new();
    let mut pos: usize = 0;
    proof {
        assert(text@.take(0) =~= Seq::<char>::empty());
        lemma_encode_split(text@, text@.len() as int);
        assert(text@.take(text@.len() as int) =~= text@);
    }
    for c in it: text.chars()
        invariant
            it.seq() == text@,
            offsets@.len() == it.index(),
            pos == byte_offset(text@, it.index() as int),
            forall|i: int| 0 <= i < offsets@.len() ==> #[trigger] offsets@[i] == byte_offset(text@, i),
            total == encode_utf8(text@).len(),
    {
        offsets.push(pos);
        let w = utf8_width(c);
        proof {
            lemma_byte_offset_step(text@, it.index() as int);
            lemma_byte_offset_monotone(text@, it.index() + 1, text@.len() as int);
            assert(text@.take(text@.len() as int) =~= text@);
        }
        pos = pos + w;
    }
    offsets.push(pos);
    proof {
        assert(text@.take(text@.len() as int) =~= text@);
    }
    offsets
}

/// `true` when `offsets` is the table that [`char_byte_offsets`] builds for
/// a string whose characters are `text`.
pub open spec fn is_offset_table(text: Seq<char>, offsets: Seq<usize>) -> bool {
    &&& offsets.len() == text.len() + 1
    &&& forall|i: int| 0 <= i <= text.len() ==> #[trigger] offsets[i] == byte_offset(text, i)
}

/// A character index clamped to the length of the text.
pub open spec fn clamp_index(i: int, len: int) -> int {
    if i < len { i } else { len }
}

/// Byte position that the table `offsets` gives for character index `i`;
/// indices past the table stand for the end of `text`.
pub open spec fn table_byte(text: &str, offsets: Seq<usize>, i: usize) -> int {
    if i < offsets.len() {
        offsets[i as int] as int
    } else {
        text.spec_bytes().len() as int
    }
}

/// The table of `text` gives byte positions on character boundaries, in the
/// order of the character indices.
pub proof fn lemma_offset_table_positions(text: &str, offsets: Seq<usize>, start: usize, end: usize)
    requires
        is_offset_table(text@, offsets),
        clamp_index(start as int, text@.len() as int) <= clamp_index(end as int, text@.len() as int),
    ensures
        table_byte(text, offsets, start) == byte_offset(text@, clamp_index(start as int, text@.len() as int)),
        table_byte(text, offsets, end) == byte_offset(text@, clamp_index(end as int, text@.len() as int)),
        table_byte(text, offsets, start) <= table_byte(text, offsets, end) <= text.spec_bytes().len(),
        is_char_boundary(text.spec_bytes(), table_byte(text, offsets, start)),
        is_char_boundary(text.spec_bytes(), table_byte(text, offsets, end)),
{
    let n = text@.len() as int;
    let s = clamp_index(start as int, n);
    let e = clamp_index(end as int, n);
    assert(text@.take(n) =~= text@);
    assert(offsets[n] == byte_offset(text@, n));
    lemma_byte_offset_is_boundary(text@, s);
    lemma_byte_offset_is_boundary(text@, e);
    lemma_byte_offset_monotone(text@, s, e);
    lemma_byte_offset_monotone(text@, e, n);
}

/// A boundary of a valid encoding before `end` is a boundary of its first
/// `end` bytes.
proof fn lemma_boundary_in_prefix(bytes: Seq<u8>, i: int, end: int)
    requires
        valid_utf8(bytes),
        0 <= i <= end <= bytes.len(),
        is_char_boundary(bytes, i),
        is_char_boundary(bytes, end),
    ensures
        valid_utf8(bytes.subrange(0, end)),
        is_char_boundary(bytes.subrange(0, end), i),
{
    valid_utf8_split(bytes, end);
    let prefix = bytes.subrange(0, end);
    if i == end {
        is_char_boundary_start_end_of_seq(prefix);
    } else {
        is_char_boundary_iff_not_is_continuation_byte(bytes, i);
        is_char_boundary_iff_not_is_continuation_byte(prefix, i);
    }
}

/// Extract `text[char_start..char_end]` using the precomputed offset table:
/// the bytes between the positions the table gives for `start` and `end`
/// (indices past the table stand for the end of the text). With the table
/// of `text` these are its characters `start..end`.
pub fn slice_chars<'a>(text: &'a str, offsets: &[usize], start: usize, end: usize) -> (slice: &'a str)
    requires
        table_byte(text, offsets@, start) <= table_byte(text, offsets@, end) <= text.spec_bytes().len(),
        is_char_boundary(text.spec_bytes(), table_byte(text, offsets@, start)),
        is_char_boundary(text.spec_bytes(), table_byte(text, offsets@, end)),
    ensures
        slice.spec_bytes() == text.spec_bytes().subrange(
            table_byte(text, offsets@, start),
            table_byte(text, offsets@, end),
        ),
        is_offset_table(text@, offsets@) ==> slice@ == text@.subrange(
            clamp_index(start as int, text@.len() as int),
            clamp_index(end as int, text@.len() as int),
        ),
{
    let ghost bytes = text.spec_bytes();
    let total = text.as_bytes().len();
    let byte_start = if start < offsets.len() { offsets[start] } else { total };
    let byte_end = if end < offsets.len() { offsets[end] } else { total };
    proof {
        encode_utf8_valid_utf8(text@);
        lemma_boundary_in_prefix(bytes, byte_start as int, byte_end as int);
    }
    let (head, _tail) = text.split_at(byte_end);
    let (_front, slice) = head.split_at(byte_start);
    proof {
        assert(slice.spec_bytes() =~= bytes.subrange(byte_start as int, byte_end as int));
        if is_offset_table(text@, offsets@) {
            let n = text@.len() as int;
            let s = clamp_index(start as int, n);
            let e = clamp_index(end as int, n);
            assert(text@.take(n) =~= text@);
            assert(offsets@[n] == byte_offset(text@, n));
            if s > e {
                lemma_byte_offset_strict(text@, e, s);
            }
            lemma_encode_split(text@, e);
            let te = text@.take(e);
            assert(head.spec_bytes() =~= encode_utf8(te));
            assert(te.take(s) =~= text@.take(s));
            lemma_encode_split(te, s);
            assert(slice.spec_bytes() =~= encode_utf8(te.skip(s)));
            lemma_encode_injective(slice@, te.skip(s));
            assert(te.skip(s) =~= text@.subrange(s, e));
        }
    }
    slice
}

/// The characters a segment selects; indices past the end of the text stand
/// for its end.
pub open spec fn segment_chars(text: Seq<char>, seg: TextSegment) -> Seq<char> {
    text.subrange(
        clamp_index((seg.start_index as usize) as int, text.len() as int),
        clamp_index((seg.end_index as usize) as int, text.len() as int),
    )
}

/// No segment ends before it starts (after clamping to the text).
pub open spec fn segments_in_order(text: Seq<char>, segs: Seq<TextSegment>) -> bool {
    forall|i: int|
        0 <= i < segs.len() ==> clamp_index((#[trigger] segs[i]).start_index as usize as int, text.len() as int)
            <= clamp_index(segs[i].end_index as usize as int, text.len() as int)
}

/// The text of all segments, concatenated in order.
pub open spec fn anchored_text(text: Seq<char>, segs: Seq<TextSegment>) -> Seq<char>
    decreases segs.len(),
{
    if segs.len() == 0 {
        Seq::empty()
    } else {
        anchored_text(text, segs.drop_last()) + segment_chars(text, segs.last())
    }
}

/// The text a token's anchor selects from the shard text.
pub fn token_text(text: &str, offsets: &[usize], anchor: &TextAnchor) -> (token: String)
    requires
        is_offset_table(text@, offsets@),
        segments_in_order(text@, anchor.text_segments@),
    ensures
        token@ == anchored_text(text@, anchor.text_segments@),
{
    let segs = &anchor.text_segments;
    let mut token = String::new();
    proof {
        assert(segs@.take(0) =~= Seq::<TextSegment>::empty());
    }
    for i in 0..segs.len()
        invariant
            is_offset_table(text@, offsets@),
            segments_in_order(text@, segs@),
            token@ == anchored_text(text@, segs@.take(i as int)),
    {
        let seg = &segs[i];
        proof {
            assert(segs@[i as int] == *seg);
        }
        proof {
            lemma_offset_table_positions(text, offsets@, seg.start_index as usize, seg.end_index as usize);
        }
        let piece = slice_chars(text, offsets, seg.start_index as usize, seg.end_index as usize);
        token.append(piece);
        proof {
            assert(segs@.take(i + 1).drop_last() =~= segs@.take(i as int));
            assert(segs@.take(i + 1).last() == *seg);
        }
    }
    proof {
        assert(segs@.take(segs@.len() as int) =~= segs@);
    }
    token
}

/// What the page layer needs to know of an OCR token.
pub struct TokenInput {
    /// `None` when the OCR output gives no orientation (read as upright).
    pub orientation: Option<Orientation>,
    /// Number of vertices of the token's bounding polygon.
    pub vertex_count: usize,
    pub text_anchor: TextAnchor,
}

/// The verdict on one token.
pub enum TokenOutcome {
    /// Not upright: rotated tokens are not overlaid.
    Rotated(Orientation),
    /// The bounding polygon has no vertices, so the token has no box.
    NoVertices,
    /// The token's text is empty or white space only.
    Blank,
    /// The token is overlaid with this text.
    Text(String),
}

/// Orientation of a token, upright when none is given.
pub open spec fn effective_orientation(o: Option<Orientation>) -> Orientation {
    match o {
        Some(o) => o,
        None => Orientation::PageUp,
    }
}

/// A token's text is needed only when it reads upright and has a box.
pub open spec fn needs_text(token: TokenInput) -> bool {
    effective_orientation(token.orientation) == Orientation::PageUp && token.vertex_count > 0
}

/// Abstract verdict on a token: `None` stands for an overlaid token, whose
/// text is `anchored_text`.
pub open spec fn token_verdict(text: Seq<char>, token: TokenInput) -> Option<TokenOutcome> {
    if effective_orientation(token.orientation) != Orientation::PageUp {
        Some(TokenOutcome::Rotated(effective_orientation(token.orientation)))
    } else if token.vertex_count == 0 {
        Some(TokenOutcome::NoVertices)
    } else if is_blank(anchored_text(text, token.text_anchor.text_segments@)) {
        Some(TokenOutcome::Blank)
    } else {
        None
    }
}

/// Decide whether a token is overlaid and with which text: rotated tokens,
/// tokens without vertices and blank tokens are skipped, in that order.
pub fn classify_token(text: &str, offsets: &[usize], token: &TokenInput) -> (outcome: TokenOutcome)
    requires
        is_offset_table(text@, offsets@),
        needs_text(*token) ==> segments_in_order(text@, token.text_anchor.text_segments@),
    ensures
        match token_verdict(text@, *token) {
            Some(TokenOutcome::Rotated(o)) => outcome == TokenOutcome::Rotated(o),
            Some(TokenOutcome::NoVertices) => outcome is NoVertices,
            Some(_) => outcome is Blank,
            None => outcome matches TokenOutcome::Text(t) && t@ == anchored_text(
                text@,
                token.text_anchor.text_segments@,
            ),
        },
{
    let orientation = match token.orientation {
        Some(o) => o,
        None => Orientation::PageUp,
    };
    match orientation {
        Orientation::PageUp => {},
        _ => {
            return TokenOutcome::Rotated(orientation);
        },
    }
    if token.vertex_count == 0 {
        return TokenOutcome::NoVertices;
    }
    let t = token_text(text, offsets, &token.text_anchor);
    if all_white_space(t.as_str()) {
        TokenOutcome::Blank
    } else {
        TokenOutcome::Text(t)
    }
}

/// Whether every character of `s` is white space.
pub fn all_white_space(s: &str) -> (blank: bool)
    ensures
        blank == is_blank(s@),
{
    for c in it: s.chars()
        invariant
            it.seq() == s@,
            forall|j: int| 0 <= j < it.index() ==> is_white_space(#[trigger] s@[j]),
    {
        if !white_space(c) {
            return false;
        }
    }
    true
}

/// Whether page `page_number` is processed when only page `target` (if
/// any) is asked for.
pub fn is_selected_page(page_number: u32, target: Option<u32>) -> (selected: bool)
    ensures
        selected == match target {
            Some(t) => page_number == t,
            None => true,
        },
{
    match target {
        Some(t) => page_number == t,
        None => true,
    }
}

/// A token that reads upright and has a box is overlaid exactly when its
/// text holds a character that is not white space, wherever it stands
/// (trailing white space, as OCR anchors often include, does not make it
/// blank); it is blank exactly when every character is white space.
pub proof fn lemma_visible_text_is_overlaid(text: Seq<char>, token: TokenInput)
    requires
        effective_orientation(token.orientation) == Orientation::PageUp,
        token.vertex_count > 0,
    ensures
        (exists|i: int|
            0 <= i < anchored_text(text, token.text_anchor.text_segments@).len() && !is_white_space(
                #[trigger] anchored_text(text, token.text_anchor.text_segments@)[i],
            )) ==> token_verdict(text, token) is None,
        (forall|i: int|
            0 <= i < anchored_text(text, token.text_anchor.text_segments@).len() ==> is_white_space(
                #[trigger] anchored_text(text, token.text_anchor.text_segments@)[i],
            )) ==> token_verdict(text, token) matches Some(TokenOutcome::Blank),
{
    let t = anchored_text(text, token.text_anchor.text_segments@);
    lemma_blank_iff_trimmed_empty(t);
}

} // verus!
