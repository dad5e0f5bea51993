//! Text items as the JavaScript binding hands them over. Coordinates and
//! metrics are single-precision floats, carried here by their bits; the
//! binding widens them to JavaScript numbers.

use vstd::prelude::*;
use crate::js::opt_view;
use crate::page::{TextItem, WordBox};
use crate::projected::{append_copies, TextMetadata};

verus! {

/// One word's sub-box within a `JsTextItem`, in the same viewport space.
pub struct JsWordBox {
    pub text: String,
    pub x: u32,
    pub y: u32,
    pub width: u32,
    pub height: u32,
}

impl JsWordBox {
    pub fn from_rust(word: &WordBox) -> (r: Self)
        ensures
            r.text@ == word.text@,
            r.x == word.x,
            r.y == word.y,
            r.width == word.width,
            r.height == word.height,
    {
        JsWordBox {
            text: word.text.clone(),
            x: word.x,
            y: word.y,
            width: word.width,
            height: word.height,
        }
    }
}

/// A text item with its optional metadata.
pub struct JsTextItem {
    pub text: String,
    pub x: u32,
    pub y: u32,
    pub width: u32,
    pub height: u32,
    pub font_name: Option<String>,
    pub font_size: Option<u32>,
    pub font_height: Option<u32>,
    pub font_ascent: Option<u32>,
    pub font_descent: Option<u32>,
    pub font_weight: Option<i32>,
    pub text_width: Option<u32>,
    pub font_is_buggy: Option<bool>,
    pub mcid: Option<i32>,
    /// Fill colour as an eight-character ARGB hex string.
    pub fill_color: Option<String>,
    /// Stroke colour as an eight-character ARGB hex string.
    pub stroke_color: Option<String>,
    /// Raw content-stream character codes of the source glyphs.
    pub char_codes: Option<Vec<u32>>,
    /// Whether the trailing source space was synthesized.
    pub trailing_space_generated: Option<bool>,
    /// OCR confidence; absent for native text.
    pub confidence: Option<u32>,
    /// Rotation in degrees; zero when absent.
    pub rotation: Option<u32>,
    /// Per-word sub-boxes; empty for items with no word split.
    pub words: Vec<JsWordBox>,
}

pub open spec fn codes_view(c: Option<Vec<u32>>) -> Option<Seq<u32>> {
    match c {
        Some(v) => Some(v@),
        None => None,
    }
}

/// What `to_rust` makes of `j`: each field carried over, absent flags and
/// codes read as false and empty, an absent rotation as zero, and the
/// fields the binding does not carry (words, font flags, link, strike,
/// unicode-map error) at their defaults.
pub open spec fn js_item_as_rust(j: JsTextItem, t: TextItem) -> bool {
    &&& t.text@ == j.text@
    &&& t.x == j.x
    &&& t.y == j.y
    &&& t.width == j.width
    &&& t.height == j.height
    &&& t.rotation == (match j.rotation {
        Some(r) => r,
        None => 0u32,
    })
    &&& opt_view(t.font_name) == opt_view(j.font_name)
    &&& t.font_size == j.font_size
    &&& t.font_height == j.font_height
    &&& t.font_ascent == j.font_ascent
    &&& t.font_descent == j.font_descent
    &&& t.font_weight == j.font_weight
    &&& t.text_width == j.text_width
    &&& t.font_is_buggy == (j.font_is_buggy == Some(true))
    &&& t.mcid == j.mcid
    &&& opt_view(t.fill_color) == opt_view(j.fill_color)
    &&& opt_view(t.stroke_color) == opt_view(j.stroke_color)
    &&& t.char_codes@ == (match codes_view(j.char_codes) {
        Some(c) => c,
        None => Seq::empty(),
    })
    &&& t.trailing_space_generated == (j.trailing_space_generated == Some(true))
    &&& t.confidence == j.confidence
    &&& t.font_flags is None
    &&& !t.has_unicode_map_error
    &&& t.link is None
    &&& !t.strike
    &&& t.words@.len() == 0
}

/// The item fields of `from_rust`, everything but the words.
pub open spec fn rust_item_as_js_fields(t: TextItem, j: JsTextItem) -> bool {
    &&& j.text@ == t.text@
    &&& j.x == t.x
    &&& j.y == t.y
    &&& j.width == t.width
    &&& j.height == t.height
    &&& j.rotation == Some(t.rotation)
    &&& opt_view(j.font_name) == opt_view(t.font_name)
    &&& j.font_size == t.font_size
    &&& j.confidence == t.confidence
}

/// The metadata fields `from_rust` reports: every one present, flags and
/// codes included.
pub open spec fn rust_item_metadata(t: TextItem, j: JsTextItem) -> bool {
    &&& j.font_height == t.font_height
    &&& j.font_ascent == t.font_ascent
    &&& j.font_descent == t.font_descent
    &&& j.font_weight == t.font_weight
    &&& j.text_width == t.text_width
    &&& j.font_is_buggy == Some(t.font_is_buggy)
    &&& j.mcid == t.mcid
    &&& opt_view(j.fill_color) == opt_view(t.fill_color)
    &&& opt_view(j.stroke_color) == opt_view(t.stroke_color)
    &&& codes_view(j.char_codes) == Some(t.char_codes@)
    &&& j.trailing_space_generated == Some(t.trailing_space_generated)
}

/// The metadata fields taken from a metadata view.
pub open spec fn metadata_fields(m: TextMetadata, j: JsTextItem) -> bool {
    &&& j.font_height == m.font_height
    &&& j.font_ascent == m.font_ascent
    &&& j.font_descent == m.font_descent
    &&& j.font_weight == m.font_weight
    &&& j.text_width == m.text_width
    &&& j.font_is_buggy == m.font_is_buggy
    &&& j.mcid == m.mcid
    &&& opt_view(j.fill_color) == opt_view(m.fill_color)
    &&& opt_view(j.stroke_color) == opt_view(m.stroke_color)
    &&& codes_view(j.char_codes) == codes_view(m.char_codes)
    &&& j.trailing_space_generated == m.trailing_space_generated
}

/// The words of `from_rust`: one sub-box per word, in order.
pub open spec fn words_as_js(ws: Seq<WordBox>, js: Seq<JsWordBox>) -> bool {
    &&& js.len() == ws.len()
    &&& forall|i: int|
        0 <= i < ws.len() ==> (#[trigger] js[i]).text@ == ws[i].text@ && js[i].x == ws[i].x
            && js[i].y == ws[i].y && js[i].width == ws[i].width && js[i].height == ws[i].height
}

fn clone_opt_string(s: &Option<String>) -> (r: Option<String>)
    ensures
        opt_view(r) == opt_view(*s),
{
    match s {
        Some(t) => Some(t.clone()),
        None => None,
    }
}

fn copy_vec(codes: &Vec<u32>) -> (r: Vec<u32>)
    ensures
        r@ == codes@,
{
    let mut out: Vec<u32> = Vec::new();
    append_copies(&mut out, codes.as_slice());
    out
}

fn clone_codes(c: &Option<Vec<u32>>) -> (r: Option<Vec<u32>>)
    ensures
        codes_view(r) == codes_view(*c),
{
    match c {
        Some(v) => Some(copy_vec(v)),
        None => None,
    }
}

fn words_from_rust(words: &Vec<WordBox>) -> (r: Vec<JsWordBox>)
    ensures
        words_as_js(words@, r@),
{
    let mut out: Vec<JsWordBox> = Vec::new();
    let mut i: usize = 0;
    while i < words.len()
        invariant
            0 <= i <= words@.len(),
            out@.len() == i,
            forall|k: int|
                0 <= k < i ==> (#[trigger] out@[k]).text@ == words@[k].text@ && out@[k].x
                    == words@[k].x && out@[k].y == words@[k].y && out@[k].width == words@[k].width
                    && out@[k].height == words@[k].height,
        decreases words@.len() - i,
    {
        out.push(JsWordBox::from_rust(&words[i]));
        i = i + 1;
    }
    out
}

impl JsTextItem {
    pub fn to_rust(&self) -> (t: TextItem)
        ensures
            js_item_as_rust(*self, t),
    {
        TextItem {
            text: self.text.clone(),
            x: self.x,
            y: self.y,
            width: self.width,
            height: self.height,
            rotation: match self.rotation {
                Some(r) => r,
                None => 0,
            },
            font_name: clone_opt_string(&self.font_name),
            font_size: self.font_size,
            font_height: self.font_height,
            font_ascent: self.font_ascent,
            font_descent: self.font_descent,
            font_weight: self.font_weight,
            font_flags: None,
            text_width: self.text_width,
            font_is_buggy: match self.font_is_buggy {
                Some(b) => b,
                None => false,
            },
            has_unicode_map_error: false,
            mcid: self.mcid,
            fill_color: clone_opt_string(&self.fill_color),
            stroke_color: clone_opt_string(&self.stroke_color),
            char_codes: match &self.char_codes {
                Some(v) => copy_vec(v),
                None => Vec::new(),
            },
            trailing_space_generated: match self.trailing_space_generated {
                Some(b) => b,
                None => false,
            },
            confidence: self.confidence,
            link: None,
            strike: false,
            words: Vec::new(),
        }
    }

    pub fn from_rust(item: &TextItem) -> (j: Self)
        ensures
            rust_item_as_js_fields(*item, j),
            rust_item_metadata(*item, j),
            words_as_js(item.words@, j.words@),
    {
        JsTextItem {
            text: item.text.clone(),
            x: item.x,
            y: item.y,
            width: item.width,
            height: item.height,
            rotation: Some(item.rotation),
            font_name: clone_opt_string(&item.font_name),
            font_size: item.font_size,
            font_height: item.font_height,
            font_ascent: item.font_ascent,
            font_descent: item.font_descent,
            font_weight: item.font_weight,
            text_width: item.text_width,
            font_is_buggy: Some(item.font_is_buggy),
            mcid: item.mcid,
            fill_color: clone_opt_string(&item.fill_color),
            stroke_color: clone_opt_string(&item.stroke_color),
            char_codes: Some(copy_vec(&item.char_codes)),
            trailing_space_generated: Some(item.trailing_space_generated),
            confidence: item.confidence,
            words: words_from_rust(&item.words),
        }
    }

    /// `from_rust` with the rich-metadata fields taken from `meta`, the
    /// metadata view the core gives of `item` for the requested extraction.
    pub fn from_rust_for_output(item: &TextItem, meta: &TextMetadata) -> (j: Self)
        ensures
            rust_item_as_js_fields(*item, j),
            metadata_fields(*meta, j),
            words_as_js(item.words@, j.words@),
    {
        let base = JsTextItem::from_rust(item);
        JsTextItem {
            font_height: meta.font_height,
            font_ascent: meta.font_ascent,
            font_descent: meta.font_descent,
            font_weight: meta.font_weight,
            text_width: meta.text_width,
            font_is_buggy: meta.font_is_buggy,
            mcid: meta.mcid,
            fill_color: clone_opt_string(&meta.fill_color),
            stroke_color: clone_opt_string(&meta.stroke_color),
            char_codes: clone_codes(&meta.char_codes),
            trailing_space_generated: meta.trailing_space_generated,
            ..base
        }
    }
}

/// Handing an item to the binding and back keeps its text, box, rotation,
/// font name and size, confidence and every metadata field, the flags and
/// character codes included; the words and the fields the binding does not
/// carry come back at their defaults.
pub proof fn lemma_text_item_round_trip(t: TextItem, j: JsTextItem, u: TextItem)
    requires
        rust_item_as_js_fields(t, j),
        rust_item_metadata(t, j),
        js_item_as_rust(j, u),
    ensures
        u.text@ == t.text@,
        u.x == t.x && u.y == t.y && u.width == t.width && u.height == t.height,
        u.rotation == t.rotation,
        opt_view(u.font_name) == opt_view(t.font_name),
        u.font_size == t.font_size,
        u.font_height == t.font_height,
        u.font_ascent == t.font_ascent,
        u.font_descent == t.font_descent,
        u.font_weight == t.font_weight,
        u.text_width == t.text_width,
        u.font_is_buggy == t.font_is_buggy,
        u.mcid == t.mcid,
        opt_view(u.fill_color) == opt_view(t.fill_color),
        opt_view(u.stroke_color) == opt_view(t.stroke_color),
        u.char_codes@ == t.char_codes@,
        u.trailing_space_generated == t.trailing_space_generated,
        u.confidence == t.confidence,
        u.words@.len() == 0,
{
}

} // verus!
