//! The invisible text content stream laid over a scanned page.
//!
//! Render mode 3 (`3 Tr`) draws glyphs invisibly, so the text can be
//! selected and searched without changing how the page looks.

use vstd::prelude::*;
use crate::font::{advance_sum, advance_total};
use crate::model::Orientation;
use crate::winansi::{
    encode_win_ansi, is_blank, is_white_space, lemma_blank_iff_trimmed_empty, lemma_win_ansi_text_bytes, win_ansi_text,
};

verus! {

/// One token to be written into the text stream. The decimal numbers are
/// already formatted (four decimals) by the caller.
pub struct StreamToken {
    pub orientation: Orientation,
    pub text: String,
    /// `false` when the token box is narrower or lower than 0.001 points.
    pub fits: bool,
    /// Glyph height in points, which is the effective font size.
    pub height: Vec<u8>,
    /// Left edge of the box in points.
    pub x: Vec<u8>,
    /// Bottom edge of the box in points.
    pub y: Vec<u8>,
    /// Horizontal scaling percentage (`Tz` operand).
    pub scale: Vec<u8>,
}

/// `BT\n/OCR_F1 1 Tf\n3 Tr\n`
pub open spec fn stream_header() -> Seq<u8> {
    seq![66, 84, 10, 47, 79, 67, 82, 95, 70, 49, 32, 49, 32, 84, 102, 10, 51, 32, 84, 114, 10]
}

/// `ET\n`
pub open spec fn stream_trailer() -> Seq<u8> {
    seq![69, 84, 10]
}

/// ` 0 0 `
pub open spec fn matrix_gap() -> Seq<u8> {
    seq![32, 48, 32, 48, 32]
}

/// ` `
pub open spec fn space() -> Seq<u8> {
    seq![32]
}

/// ` Tm\n`
pub open spec fn matrix_op() -> Seq<u8> {
    seq![32, 84, 109, 10]
}

/// ` Tz\n`
pub open spec fn scale_op() -> Seq<u8> {
    seq![32, 84, 122, 10]
}

/// `<`
pub open spec fn hex_open() -> Seq<u8> {
    seq![60]
}

/// `> Tj\n`
pub open spec fn show_op() -> Seq<u8> {
    seq![62, 32, 84, 106, 10]
}

/// Upper-case hexadecimal digit of a value below 16.
pub open spec fn hex_digit(n: u8) -> u8 {
    if n < 10 {
        (48 + n) as u8
    } else {
        (55 + n) as u8
    }
}

/// Two upper-case hexadecimal digits per byte.
pub open spec fn hex_text(bytes: Seq<u8>) -> Seq<u8>
    decreases bytes.len(),
{
    if bytes.len() == 0 {
        Seq::empty()
    } else {
        hex_text(bytes.drop_last()) + seq![hex_digit(bytes.last() / 16), hex_digit(bytes.last() % 16)]
    }
}

/// A token is written when it reads upright, its box is not degenerate
/// and its text is not blank.
pub open spec fn keeps_token(t: StreamToken) -> bool {
    &&& t.orientation == Orientation::PageUp
    &&& t.fits
    &&& win_ansi_text(t.text@).len() > 0
}

/// Operators written for one token: text matrix, horizontal scaling and the
/// hex-encoded string.
pub open spec fn token_ops(t: StreamToken) -> Seq<u8> {
    t.height@ + matrix_gap() + t.height@ + space() + t.x@ + space() + t.y@ + matrix_op() + t.scale@
        + scale_op() + hex_open() + hex_text(win_ansi_text(t.text@)) + show_op()
}

/// Operators of all written tokens, in order.
pub open spec fn stream_body(tokens: Seq<StreamToken>) -> Seq<u8>
    decreases tokens.len(),
{
    if tokens.len() == 0 {
        Seq::empty()
    } else {
        stream_body(tokens.drop_last()) + if keeps_token(tokens.last()) {
            token_ops(tokens.last())
        } else {
            Seq::empty()
        }
    }
}

/// The complete content stream for `tokens`.
pub open spec fn text_stream(tokens: Seq<StreamToken>) -> Seq<u8> {
    stream_header() + stream_body(tokens) + stream_trailer()
}

fn push_all(out: &mut Vec<u8>, bytes: &[u8])
    ensures
        final(out)@ == old(out)@ + bytes@,
{
    out.extend_from_slice(bytes);
    assert(final(out)@ =~= old(out)@ + bytes@);
}

fn hex_nibble(n: u8) -> (d: u8)
    requires
        n < 16,
    ensures
        d == hex_digit(n),
{
    if n < 10 {
        48 + n
    } else {
        55 + n
    }
}

fn push_hex(out: &mut Vec<u8>, bytes: &[u8])
    ensures
        final(out)@ == old(out)@ + hex_text(bytes@),
{
    let ghost start = out@;
    for i in 0..bytes.len()
        invariant
            out@ == start + hex_text(bytes@.take(i as int)),
    {
        let b = bytes[i];
        out.push(hex_nibble(b / 16));
        out.push(hex_nibble(b % 16));
        proof {
            assert(bytes@.take(i + 1).drop_last() =~= bytes@.take(i as int));
            assert(out@ =~= start + hex_text(bytes@.take(i + 1)));
        }
    }
    proof {
        assert(bytes@.take(bytes@.len() as int) =~= bytes@);
    }
}

/// Sum of the Helvetica advance widths of the encoded, trimmed token text,
/// in units per 1000 em (the natural width at font size 1000).
pub fn text_advance(text: &str) -> (total: u128)
    ensures
        total == advance_total(win_ansi_text(text@)),
{
    let encoded = encode_win_ansi(text);
    advance_sum(encoded.as_slice())
}

/// Build the invisible text content stream for a page.
pub fn build_text_stream(tokens: &[StreamToken]) -> (out: Vec<u8>)
    ensures
        out@ == text_stream(tokens@),
{
    let mut out: Vec<u8> = Vec::new();
    let header: [u8; 21] = [66, 84, 10, 47, 79, 67, 82, 95, 70, 49, 32, 49, 32, 84, 102, 10, 51, 32, 84, 114, 10];
    push_all(&mut out, &header);
    let gap: [u8; 5] = [32, 48, 32, 48, 32];
    let sp: [u8; 1] = [32];
    let tm: [u8; 4] = [32, 84, 109, 10];
    let tz: [u8; 4] = [32, 84, 122, 10];
    let open: [u8; 1] = [60];
    let tj: [u8; 5] = [62, 32, 84, 106, 10];
    proof {
        assert(header@ == stream_header());
        assert(gap@ == matrix_gap());
        assert(sp@ == space());
        assert(tm@ == matrix_op());
        assert(tz@ == scale_op());
        assert(open@ == hex_open());
        assert(tj@ == show_op());
        assert(tokens@.take(0) =~= Seq::<StreamToken>::empty());
    }
    for i in 0..tokens.len()
        invariant
            out@ == stream_header() + stream_body(tokens@.take(i as int)),
            header@ == stream_header(),
            gap@ == matrix_gap(),
            sp@ == space(),
            tm@ == matrix_op(),
            tz@ == scale_op(),
            open@ == hex_open(),
            tj@ == show_op(),
    {
        let t = &tokens[i];
        let ghost before = out@;
        proof {
            assert(tokens@.take(i + 1).drop_last() =~= tokens@.take(i as int));
            assert(tokens@.take(i + 1).last() == *t);
        }
        let upright = match t.orientation {
            Orientation::PageUp => true,
            _ => false,
        };
        if upright && t.fits {
            let encoded = encode_win_ansi(t.text.as_str());
            if encoded.len() > 0 {
                push_all(&mut out, t.height.as_slice());
                push_all(&mut out, &gap);
                push_all(&mut out, t.height.as_slice());
                push_all(&mut out, &sp);
                push_all(&mut out, t.x.as_slice());
                push_all(&mut out, &sp);
                push_all(&mut out, t.y.as_slice());
                push_all(&mut out, &tm);
                push_all(&mut out, t.scale.as_slice());
                push_all(&mut out, &tz);
                push_all(&mut out, &open);
                push_hex(&mut out, encoded.as_slice());
                push_all(&mut out, &tj);
                proof {
                    assert(keeps_token(*t));
                    assert(out@ =~= before + token_ops(*t));
                }
            } else {
                assert(out@ =~= before + Seq::<u8>::empty());
            }
        } else {
            assert(!keeps_token(*t));
            assert(out@ =~= before + Seq::<u8>::empty());
        }
        proof {
            assert(out@ =~= stream_header() + stream_body(tokens@.take(i + 1)));
        }
    }
    let trailer: [u8; 3] = [69, 84, 10];
    proof {
        assert(trailer@ == stream_trailer());
        assert(tokens@.take(tokens@.len() as int) =~= tokens@);
    }
    push_all(&mut out, &trailer);
    proof {
        assert(out@ =~= text_stream(tokens@));
    }
    out
}

} // verus!

verus! {

/// Tokens that are not written (rotated, with a degenerate box, or blank)
/// leave no trace: the stream of all tokens is the stream of the written
/// ones.
pub proof fn lemma_skipped_tokens_leave_no_trace(tokens: Seq<StreamToken>)
    ensures
        text_stream(tokens) == text_stream(tokens.filter(|t: StreamToken| keeps_token(t))),
{
    lemma_body_of_written(tokens);
}

proof fn lemma_body_of_written(tokens: Seq<StreamToken>)
    ensures
        stream_body(tokens) == stream_body(tokens.filter(|t: StreamToken| keeps_token(t))),
    decreases tokens.len(),
{
    reveal_with_fuel(Seq::filter, 1);
    let f = |t: StreamToken| keeps_token(t);
    if tokens.len() > 0 {
        lemma_body_of_written(tokens.drop_last());
        let kept = tokens.drop_last().filter(f);
        if keeps_token(tokens.last()) {
            assert(tokens.filter(f) == kept.push(tokens.last()));
            assert(kept.push(tokens.last()).drop_last() =~= kept);
        } else {
            assert(tokens.filter(f) == kept);
            assert(stream_body(tokens) =~= stream_body(tokens.drop_last()));
        }
    }
}

/// A token is written exactly when it reads upright, its box fits, and its
/// text holds a character that is not white space (one such character is
/// enough); the stream of such a token alone is the header, its text
/// matrix, scaling and hex string of the encoded text, and the trailer, and
/// that of any other token alone is the header and the trailer.
pub proof fn lemma_token_written(t: StreamToken)
    ensures
        keeps_token(t) <==> (t.orientation == Orientation::PageUp && t.fits && exists|i: int|
            0 <= i < t.text@.len() && !is_white_space(#[trigger] t.text@[i])),
        keeps_token(t) ==> text_stream(seq![t]) == stream_header() + t.height@ + matrix_gap() + t.height@
            + space() + t.x@ + space() + t.y@ + matrix_op() + t.scale@ + scale_op() + hex_open() + hex_text(
            win_ansi_text(t.text@),
        ) + show_op() + stream_trailer(),
        !keeps_token(t) ==> text_stream(seq![t]) == stream_header() + stream_trailer(),
        win_ansi_text(t.text@).len() <= t.text@.len(),
        hex_text(win_ansi_text(t.text@)).len() == 2 * win_ansi_text(t.text@).len(),
{
    let s = t.text@;
    lemma_win_ansi_text_bytes(s);
    lemma_blank_iff_trimmed_empty(s);
    lemma_hex_text_len(win_ansi_text(s));
    if exists|i: int| 0 <= i < s.len() && !is_white_space(#[trigger] s[i]) {
        let i = choose|i: int| 0 <= i < s.len() && !is_white_space(#[trigger] s[i]);
        assert(!is_blank(s));
    }
    if win_ansi_text(s).len() > 0 {
        assert(!is_blank(s));
    }
    let one = seq![t];
    assert(one.drop_last() =~= Seq::<StreamToken>::empty());
    assert(one.last() == t);
    assert(stream_body(one.drop_last()) == Seq::<u8>::empty());
    if keeps_token(t) {
        assert(stream_body(one) =~= token_ops(t));
    } else {
        assert(stream_body(one) =~= Seq::<u8>::empty());
        assert(text_stream(one) =~= stream_header() + stream_trailer());
    }
}

/// Two hexadecimal digits per byte.
pub proof fn lemma_hex_text_len(bytes: Seq<u8>)
    ensures
        hex_text(bytes).len() == 2 * bytes.len(),
    decreases bytes.len(),
{
    if bytes.len() > 0 {
        lemma_hex_text_len(bytes.drop_last());
    }
}

/// Adding a token at the end adds its operators, if it is written, just
/// before the trailer: tokens are written in their order.
pub proof fn lemma_stream_push(tokens: Seq<StreamToken>, t: StreamToken)
    ensures
        text_stream(tokens.push(t)) == stream_header() + stream_body(tokens) + (if keeps_token(t) {
            token_ops(t)
        } else {
            Seq::empty()
        }) + stream_trailer(),
{
    assert(tokens.push(t).drop_last() =~= tokens);
    assert(tokens.push(t).last() == t);
    assert(text_stream(tokens.push(t)) =~= stream_header() + stream_body(tokens) + (if keeps_token(t) {
        token_ops(t)
    } else {
        Seq::empty()
    }) + stream_trailer());
}

} // verus!
