//! Font faces and the preparation of text for shaping.
//!
//! Fonts are parsed by `fontdue`. Before text is shaped, line breaks are
//! normalized and every character is assigned the first face that has a glyph
//! for it; consecutive characters of one face form a segment.

use std::sync::Arc;

use vstd::prelude::*;

use crate::render::FontError;

verus! {

#[verifier::external_type_specification]
#[verifier::external_body]
pub struct ExFont(fontdue::Font);

/// What parsing `bytes` as a font with the default settings gives: success,
/// or the parser's reason for refusing them.
pub uninterp spec fn font_parse(bytes: Seq<u8>) -> Result<(), Seq<char>>;

/// Whether the font parsed from `bytes` maps the character `c` to a glyph.
pub uninterp spec fn font_maps_char(bytes: Seq<u8>, c: char) -> bool;

/// Parses `bytes` with `fontdue::Font::from_bytes` and the default settings.
/// Claims that the outcome, and on failure the reason, are those that
/// `font_parse` names for these bytes. Nothing is said of which inputs the
/// parser might panic on; its documentation names none.
#[verifier::external_body]
fn parse_font(bytes: Vec<u8>) -> (r: Result<fontdue::Font, &'static str>)
    ensures
        match r {
            Ok(_) => font_parse(bytes@) is Ok,
            Err(reason) => font_parse(bytes@) == Err::<(), Seq<char>>(reason@),
        },
{
    fontdue::Font::from_bytes(bytes, fontdue::FontSettings::default())
}

/// Asks `fontdue::Font::has_glyph` whether the face has a glyph for `c`.
/// Claims that the answer is `font_maps_char` of the bytes the face was
/// parsed from, which [`FontFace::from_bytes`], the only way to make a face,
/// records as its model.
#[verifier::external_body]
fn face_has_glyph(face: &FontFace, c: char) -> (r: bool)
    ensures
        r == font_maps_char(face@, c),
{
    face.font.has_glyph(c)
}

/// Shares a parsed font with `Arc::clone`, which makes another pointer to the
/// same font. Claims that the result points to the same font.
#[verifier::external_body]
fn share_font(font: &Arc<fontdue::Font>) -> (r: Arc<fontdue::Font>)
    ensures
        r == *font,
{
    Arc::clone(font)
}

/// An immutable parsed font. Its model is the bytes it was parsed from.
pub struct FontFace {
    font: Arc<fontdue::Font>,
    source: Ghost<Seq<u8>>,
}

impl View for FontFace {
    type V = Seq<u8>;

    closed spec fn view(&self) -> Seq<u8> {
        self.source@
    }
}

impl Clone for FontFace {
    fn clone(&self) -> (r: Self)
        ensures
            r@ == self@,
    {
        FontFace { font: share_font(&self.font), source: Ghost(self.source@) }
    }
}

impl FontFace {
    /// Parses a TrueType or OpenType font from its complete binary contents.
    pub fn from_bytes(bytes: Vec<u8>) -> (r: Result<FontFace, FontError>)
        ensures
            match r {
                Ok(face) => font_parse(bytes@) is Ok && face@ == bytes@,
                Err(e) => font_parse(bytes@) == Err::<(), Seq<char>>(e.spec_reason()@),
            },
    {
        let ghost source = bytes@;
        match parse_font(bytes) {
            Ok(font) => Ok(FontFace { font: Arc::new(font), source: Ghost(source) }),
            Err(reason) => Err(FontError::new(reason)),
        }
    }

    /// Returns whether this face has a glyph for `character`.
    pub fn has_glyph(&self, character: char) -> (r: bool)
        ensures
            r == font_maps_char(self@, character),
    {
        face_has_glyph(self, character)
    }

    /// The parsed font.
    pub closed spec fn parsed(&self) -> fontdue::Font {
        *self.font
    }

    /// Returns the parsed font, for rasterizing and laying out glyphs.
    pub fn font(&self) -> (r: &fontdue::Font)
        ensures
            *r == self.parsed(),
    {
        &self.font
    }
}

/// Returns the characters of `text`, in order.
fn chars_of(text: &str) -> (r: Vec<char>)
    ensures
        r@ == text@,
{
    broadcast use vstd::string::group_string_axioms;

    let mut out: Vec<char> = Vec::new();
    for c in it: text.chars()
        invariant
            out@ == it.seq().subrange(0, it.index() as int),
            it.seq() == text@,
    {
        out.push(c);
    }
    out
}

/// `text` with every `"\r\n"` pair and every other `'\r'` replaced by `'\n'`.
pub open spec fn normalized_breaks(text: Seq<char>) -> Seq<char>
    decreases text.len(),
{
    if text.len() == 0 {
        text
    } else if text[0] == '\r' && text.len() > 1 && text[1] == '\n' {
        seq!['\n'] + normalized_breaks(text.subrange(2, text.len() as int))
    } else if text[0] == '\r' {
        seq!['\n'] + normalized_breaks(text.drop_first())
    } else {
        seq![text[0]] + normalized_breaks(text.drop_first())
    }
}

/// Returns the characters of `text` with Windows (`"\r\n"`) and old Mac
/// (`'\r'`) line endings turned into `'\n'`.
pub fn normalize_line_breaks(text: &str) -> (r: Vec<char>)
    ensures
        r@ == normalized_breaks(text@),
{
    let chars = chars_of(text);
    let n = chars.len();
    let mut out: Vec<char> = Vec::new();
    let mut i: usize = 0;
    assert(chars@.subrange(0, n as int) =~= chars@);
    assert(out@ + normalized_breaks(chars@) =~= normalized_breaks(chars@));
    while i < n
        invariant
            i <= n,
            n == chars@.len(),
            chars@ == text@,
            out@ + normalized_breaks(chars@.subrange(i as int, n as int)) == normalized_breaks(text@),
        decreases n - i,
    {
        let ghost rest = chars@.subrange(i as int, n as int);
        let ghost before = out@;
        if chars[i] == '\r' {
            out.push('\n');
            if i + 1 < n && chars[i + 1] == '\n' {
                assert(rest.subrange(2, rest.len() as int) =~= chars@.subrange(i + 2, n as int));
                assert(before + (seq!['\n'] + normalized_breaks(chars@.subrange(i + 2, n as int)))
                    =~= out@ + normalized_breaks(chars@.subrange(i + 2, n as int)));
                i = i + 2;
            } else {
                assert(rest.drop_first() =~= chars@.subrange(i + 1, n as int));
                assert(before + (seq!['\n'] + normalized_breaks(chars@.subrange(i + 1, n as int)))
                    =~= out@ + normalized_breaks(chars@.subrange(i + 1, n as int)));
                i = i + 1;
            }
        } else {
            let c = chars[i];
            out.push(c);
            assert(rest.drop_first() =~= chars@.subrange(i + 1, n as int));
            assert(before + (seq![c] + normalized_breaks(chars@.subrange(i + 1, n as int)))
                =~= out@ + normalized_breaks(chars@.subrange(i + 1, n as int)));
            i = i + 1;
        }
    }
    assert(chars@.subrange(n as int, n as int) =~= Seq::<char>::empty());
    assert(out@ + Seq::<char>::empty() =~= out@);
    out
}

/// Whether `c` is a control character: general category Cc, which is
/// `U+0000..=U+001F` and `U+007F..=U+009F`.
pub open spec fn is_control(c: char) -> bool {
    (c as u32) <= 0x1f || (0x7f <= (c as u32) && (c as u32) <= 0x9f)
}

/// Returns whether `c` is a control character.
pub fn is_control_char(c: char) -> (r: bool)
    ensures
        r == is_control(c),
{
    let code = c as u32;
    code <= 0x1f || (0x7f <= code && code <= 0x9f)
}

/// The models of a sequence of faces.
pub open spec fn face_sources(faces: Seq<FontFace>) -> Seq<Seq<u8>> {
    faces.map_values(|face: FontFace| face@)
}

/// The first face, at or after `start`, that maps `c` to a glyph.
pub open spec fn first_face_with(faces: Seq<Seq<u8>>, c: char, start: int) -> Option<int>
    decreases faces.len() - start,
{
    if 0 <= start < faces.len() {
        if font_maps_char(faces[start], c) {
            Some(start)
        } else {
            first_face_with(faces, c, start + 1)
        }
    } else {
        None
    }
}

/// The face index and character that `c` is shaped with: a control character
/// keeps the primary face, any other character takes the first face that has
/// a glyph for it, and a character that no face has becomes `'?'` in the
/// primary face.
pub open spec fn shaping_choice(faces: Seq<Seq<u8>>, c: char) -> (int, char) {
    if is_control(c) {
        (0, c)
    } else {
        match first_face_with(faces, c, 0) {
            Some(i) => (i, c),
            None => (0, '?'),
        }
    }
}

/// Consecutive characters of one face, grouped into segments in order.
pub open spec fn segmented(choices: Seq<(int, char)>) -> Seq<(int, Seq<char>)>
    decreases choices.len(),
{
    if choices.len() == 0 {
        Seq::empty()
    } else {
        let front = segmented(choices.drop_last());
        let (face, c) = choices.last();
        if front.len() > 0 && front.last().0 == face {
            front.update(front.len() - 1, (face, front.last().1.push(c)))
        } else {
            front.push((face, seq![c]))
        }
    }
}

/// The segments that `text` is shaped in with `faces`.
pub open spec fn prepared(faces: Seq<Seq<u8>>, text: Seq<char>) -> Seq<(int, Seq<char>)> {
    segmented(text.map_values(|c: char| shaping_choice(faces, c)))
}

/// The model of prepared segments.
pub open spec fn segments_view(segments: Seq<(usize, Vec<char>)>) -> Seq<(int, Seq<char>)> {
    segments.map_values(|s: (usize, Vec<char>)| (s.0 as int, s.1@))
}

/// Returns the index of the face `c` is shaped with, and the character that
/// stands for it.
fn choose_face(fonts: &[FontFace], c: char) -> (r: (usize, char))
    ensures
        (r.0 as int, r.1) == shaping_choice(face_sources(fonts@), c),
{
    if is_control_char(c) {
        return (0, c);
    }
    let ghost faces = face_sources(fonts@);
    let mut k: usize = 0;
    while k < fonts.len()
        invariant
            k <= fonts.len(),
            faces == face_sources(fonts@),
            !is_control(c),
            first_face_with(faces, c, 0) == first_face_with(faces, c, k as int),
        decreases fonts.len() - k,
    {
        if fonts[k].has_glyph(c) {
            return (k, c);
        }
        k = k + 1;
    }
    (0, '?')
}

/// Splits `text`, whose line breaks are already normalized, into segments of
/// consecutive characters shaped with the same face, in order.
pub fn prepare_text(fonts: &[FontFace], text: &[char]) -> (r: Vec<(usize, Vec<char>)>)
    ensures
        segments_view(r@) == prepared(face_sources(fonts@), text@),
{
    let ghost faces = face_sources(fonts@);
    let ghost choices = text@.map_values(|c: char| shaping_choice(faces, c));
    let mut segments: Vec<(usize, Vec<char>)> = Vec::new();
    let mut i: usize = 0;
    assert(choices.subrange(0, 0) =~= Seq::<(int, char)>::empty());
    while i < text.len()
        invariant
            i <= text.len(),
            faces == face_sources(fonts@),
            choices == text@.map_values(|c: char| shaping_choice(faces, c)),
            segments_view(segments@) == segmented(choices.subrange(0, i as int)),
        decreases text.len() - i,
    {
        let (face, c) = choose_face(fonts, text[i]);
        let ghost front = segmented(choices.subrange(0, i as int));
        assert(choices.subrange(0, i as int + 1).drop_last() =~= choices.subrange(0, i as int));
        assert(choices.subrange(0, i as int + 1).last() == (face as int, c));
        let n = segments.len();
        if n > 0 && segments[n - 1].0 == face {
            let (last_face, mut chars) = segments.pop().unwrap();
            chars.push(c);
            segments.push((last_face, chars));
            assert(segments_view(segments@) =~= front.update(
                front.len() - 1,
                (face as int, front.last().1.push(c)),
            ));
        } else {
            let mut chars: Vec<char> = Vec::new();
            chars.push(c);
            segments.push((face, chars));
            assert(segments_view(segments@) =~= front.push((face as int, seq![c])));
        }
        i = i + 1;
    }
    assert(choices.subrange(0, text.len() as int) =~= choices);
    segments
}

} // verus!
