//! Text preparation for the invisible text layer: Unicode white space,
//! trailing-space trimming and WinAnsiEncoding of the remaining characters.

use vstd::prelude::*;

verus! {

/// Unicode `White_Space` characters (the set `char::is_whitespace` accepts).
pub open spec fn is_white_space(c: char) -> bool {
    let v = c as u32;
    ||| 0x09 <= v <= 0x0D
    ||| v == 0x20
    ||| v == 0x85
    ||| v == 0xA0
    ||| v == 0x1680
    ||| 0x2000 <= v <= 0x200A
    ||| v == 0x2028
    ||| v == 0x2029
    ||| v == 0x202F
    ||| v == 0x205F
    ||| v == 0x3000
}

/// Whether `c` is a Unicode white-space character.
pub fn white_space(c: char) -> (b: bool)
    ensures
        b == is_white_space(c),
{
    let v = c as u32;
    (0x09 <= v && v <= 0x0D) || v == 0x20 || v == 0x85 || v == 0xA0 || v == 0x1680 || (0x2000
        <= v && v <= 0x200A) || v == 0x2028 || v == 0x2029 || v == 0x202F || v == 0x205F || v
        == 0x3000
}

/// `s` without its trailing white space.
pub open spec fn trim_end(s: Seq<char>) -> Seq<char>
    decreases s.len(),
{
    if s.len() > 0 && is_white_space(s.last()) {
        trim_end(s.drop_last())
    } else {
        s
    }
}

/// Every character of `s` is white space (so trimming leaves nothing).
pub open spec fn is_blank(s: Seq<char>) -> bool {
    forall|i: int| 0 <= i < s.len() ==> is_white_space(#[trigger] s[i])
}

/// WinAnsiEncoding byte of a character: Latin-1 characters map to their
/// code point, every other character to `?`.
pub open spec fn win_ansi_byte(c: char) -> u8 {
    if (c as u32) < 256 {
        (c as u32) as u8
    } else {
        63u8
    }
}

/// WinAnsiEncoding of `s` with its trailing white space removed.
pub open spec fn win_ansi_text(s: Seq<char>) -> Seq<u8> {
    trim_end(s).map_values(|c: char| win_ansi_byte(c))
}

/// Trimming is a prefix, and what it removes is white space.
pub proof fn lemma_trim_end_prefix(s: Seq<char>)
    ensures
        trim_end(s).len() <= s.len(),
        trim_end(s) == s.take(trim_end(s).len() as int),
        forall|i: int| trim_end(s).len() <= i < s.len() ==> is_white_space(#[trigger] s[i]),
        trim_end(s).len() > 0 ==> !is_white_space(trim_end(s).last()),
    decreases s.len(),
{
    if s.len() > 0 && is_white_space(s.last()) {
        lemma_trim_end_prefix(s.drop_last());
        assert(trim_end(s) == trim_end(s.drop_last()));
        assert forall|i: int| trim_end(s).len() <= i < s.len() implies is_white_space(#[trigger] s[i]) by {
            if i < s.len() - 1 {
                assert(s[i] == s.drop_last()[i]);
            }
        }
        assert(s.drop_last().take(trim_end(s).len() as int) =~= s.take(trim_end(s).len() as int));
    } else {
        assert(s.take(s.len() as int) =~= s);
    }
}

/// WinAnsiEncoding of `text` without its trailing white space.
pub fn encode_win_ansi(text: &str) -> (bytes: Vec<u8>)
    ensures
        bytes@ == win_ansi_text(text@),
{
    let mut bytes: Vec<u8> = Vec::new();
    let mut keep: usize = 0;
    for c in it: text.chars()
        invariant
            it.seq() == text@,
            bytes@ == text@.take(it.index() as int).map_values(|c: char| win_ansi_byte(c)),
            keep == trim_end(text@.take(it.index() as int)).len(),
            keep <= bytes@.len(),
    {
        let ghost before = text@.take(it.index() as int);
        let v = c as u32;
        let b: u8 = if v < 256 { v as u8 } else { 63u8 };
        bytes.push(b);
        proof {
            let after = text@.take(it.index() + 1);
            assert(after.drop_last() =~= before);
            assert(after.last() == c);
            lemma_trim_end_prefix(before);
            assert(bytes@ =~= after.map_values(|c: char| win_ansi_byte(c)));
        }
        if !white_space(c) {
            keep = bytes.len();
        }
    }
    proof {
        assert(text@.take(text@.len() as int) =~= text@);
        lemma_trim_end_prefix(text@);
    }
    bytes.truncate(keep);
    proof {
        assert(bytes@ =~= win_ansi_text(text@));
    }
    bytes
}

/// Latin-1 characters keep their code point as their byte; every character
/// from U+0100 on becomes `?`.
pub proof fn lemma_win_ansi_byte_latin1(c: char)
    ensures
        (c as u32) < 256 ==> win_ansi_byte(c) as u32 == c as u32,
        (c as u32) >= 256 ==> win_ansi_byte(c) == 63u8,
{
}

/// A text is blank exactly when trimming its trailing white space leaves
/// nothing; a single character that is not white space, wherever it stands,
/// makes it not blank.
pub proof fn lemma_blank_iff_trimmed_empty(s: Seq<char>)
    ensures
        is_blank(s) <==> trim_end(s).len() == 0,
        forall|i: int| 0 <= i < s.len() && !is_white_space(#[trigger] s[i]) ==> !is_blank(s),
{
    lemma_trim_end_prefix(s);
    if trim_end(s).len() > 0 {
        let k = trim_end(s).len() - 1;
        assert(trim_end(s)[k] == s[k]);
        assert(!is_white_space(s[k]));
    }
}

/// Two texts put together are blank exactly when each is.
pub proof fn lemma_blank_concat(s: Seq<char>, t: Seq<char>)
    ensures
        is_blank(s + t) <==> (is_blank(s) && is_blank(t)),
{
    if is_blank(s + t) {
        assert forall|i: int| 0 <= i < s.len() implies is_white_space(#[trigger] s[i]) by {
            assert((s + t)[i] == s[i]);
        }
        assert forall|i: int| 0 <= i < t.len() implies is_white_space(#[trigger] t[i]) by {
            assert((s + t)[s.len() + i] == t[i]);
        }
    }
    if is_blank(s) && is_blank(t) {
        assert forall|i: int| 0 <= i < (s + t).len() implies is_white_space(#[trigger] (s + t)[i]) by {
            if i < s.len() {
                assert((s + t)[i] == s[i]);
            } else {
                assert((s + t)[i] == t[i - s.len()]);
            }
        }
    }
}

/// The encoded text has one byte per character up to the last character
/// that is not white space: the character's code point where it is below
/// 256, `?` otherwise. Nothing of a text that ends in a visible character
/// is cut.
pub proof fn lemma_win_ansi_text_bytes(s: Seq<char>)
    ensures
        win_ansi_text(s).len() <= s.len(),
        is_blank(s) <==> win_ansi_text(s).len() == 0,
        s.len() > 0 && !is_white_space(s.last()) ==> win_ansi_text(s).len() == s.len(),
        forall|i: int| 0 <= i < s.len() && !is_white_space(#[trigger] s[i]) ==> i < win_ansi_text(s).len(),
        forall|i: int|
            0 <= i < win_ansi_text(s).len() ==> {
                &&& (s[i] as u32) < 256 ==> #[trigger] win_ansi_text(s)[i] as u32 == s[i] as u32
                &&& (s[i] as u32) >= 256 ==> win_ansi_text(s)[i] == 63u8
            },
{
    lemma_trim_end_prefix(s);
    lemma_blank_iff_trimmed_empty(s);
    if s.len() > 0 && !is_white_space(s.last()) {
        assert(trim_end(s) == s);
    }
    assert forall|i: int| 0 <= i < win_ansi_text(s).len() implies {
        &&& (s[i] as u32) < 256 ==> #[trigger] win_ansi_text(s)[i] as u32 == s[i] as u32
        &&& (s[i] as u32) >= 256 ==> win_ansi_text(s)[i] == 63u8
    } by {
        assert(trim_end(s)[i] == s[i]);
        lemma_win_ansi_byte_latin1(s[i]);
    }
}

/// Trailing white space changes nothing of the encoded text.
pub proof fn lemma_win_ansi_text_ignores_trailing_space(s: Seq<char>, w: Seq<char>)
    requires
        is_blank(w),
    ensures
        win_ansi_text(s + w) == win_ansi_text(s),
    decreases w.len(),
{
    if w.len() > 0 {
        let w1 = w.drop_last();
        assert(is_blank(w1)) by {
            assert forall|i: int| 0 <= i < w1.len() implies is_white_space(#[trigger] w1[i]) by {
                assert(w1[i] == w[i]);
            }
        }
        lemma_win_ansi_text_ignores_trailing_space(s, w1);
        assert((s + w).drop_last() =~= s + w1);
        assert((s + w).last() == w[w.len() - 1]);
        assert(trim_end(s + w) == trim_end(s + w1));
    } else {
        assert(s + w =~= s);
    }
}

} // verus!
