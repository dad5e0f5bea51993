//! Caller-supplied page content read back out of flat records: every range,
//! flag word, single-precision value and string is checked in the order
//! the records are read, and the first failure is reported under the
//! record's place.

use vstd::prelude::*;
use vstd::string::StringExecFns;
use crate::check::{
    LiteParseRect, all_finite, finite, finite_rect, flagged_rect, known_flags, only_known, range_fits,
    range_message, rect_finite,
};
use crate::color::{hex_digits, hex_from_argb};
use crate::content::{
    first_fail, lemma_first_fail, opt_view, range_of, str_error, str_field, str_ok, str_text,
    text_field, text_or_empty, flagged,
};
use crate::pool::LiteParseStr;
use crate::status::{FfiError, FfiResult, LITEPARSE_STATUS_INVALID_ARGUMENT};
use crate::text::{decimal, label_of, push_decimal};

verus! {

/// `LiteParsePage.flags` bits.
pub const LITEPARSE_PAGE_FLAG_HAS_GEOMETRY: u32 = 1;
pub const LITEPARSE_PAGE_FLAG_HAS_ROTATION: u32 = 2;
pub const LITEPARSE_PAGE_FLAG_HAS_CONTENT_BOUNDS: u32 = 4;
pub const LITEPARSE_PAGE_FLAG_HAS_COMPLEXITY: u32 = 8;
pub const LITEPARSE_PAGE_FLAG_HAS_ANNOTATIONS: u32 = 16;
pub const LITEPARSE_PAGE_FLAG_HAS_FORM_FIELDS: u32 = 32;
pub const LITEPARSE_PAGE_FLAG_HAS_STRUCTURE_TREE: u32 = 64;
pub const LITEPARSE_PAGE_FLAG_HAS_BLOCKS: u32 = 128;
pub const LITEPARSE_PAGE_FLAG_HAS_VECTOR_GRAPHICS: u32 = 256;
/// Every `LITEPARSE_PAGE_FLAG_*` bit.
pub const PAGE_FLAGS: u32 = 511;

/// `LiteParseTextItem.flags` bits.
pub const LITEPARSE_TEXT_ITEM_FLAG_HAS_FONT_SIZE: u32 = 1;
pub const LITEPARSE_TEXT_ITEM_FLAG_HAS_CONFIDENCE: u32 = 2;
pub const LITEPARSE_TEXT_ITEM_FLAG_HAS_FONT_FLAGS: u32 = 4;
pub const LITEPARSE_TEXT_ITEM_FLAG_HAS_FONT_HEIGHT: u32 = 8;
pub const LITEPARSE_TEXT_ITEM_FLAG_HAS_FONT_ASCENT: u32 = 16;
pub const LITEPARSE_TEXT_ITEM_FLAG_HAS_FONT_DESCENT: u32 = 32;
pub const LITEPARSE_TEXT_ITEM_FLAG_HAS_FONT_WEIGHT: u32 = 64;
pub const LITEPARSE_TEXT_ITEM_FLAG_HAS_TEXT_WIDTH: u32 = 128;
pub const LITEPARSE_TEXT_ITEM_FLAG_HAS_MCID: u32 = 256;
pub const LITEPARSE_TEXT_ITEM_FLAG_HAS_FILL_COLOR: u32 = 512;
pub const LITEPARSE_TEXT_ITEM_FLAG_HAS_STROKE_COLOR: u32 = 1024;
pub const LITEPARSE_TEXT_ITEM_FLAG_STRIKE: u32 = 2048;
pub const LITEPARSE_TEXT_ITEM_FLAG_UNICODE_MAP_ERROR: u32 = 4096;
pub const LITEPARSE_TEXT_ITEM_FLAG_FONT_IS_BUGGY: u32 = 8192;
pub const LITEPARSE_TEXT_ITEM_FLAG_TRAILING_SPACE_GENERATED: u32 = 16384;
/// Every `LITEPARSE_TEXT_ITEM_FLAG_*` bit.
pub const TEXT_ITEM_FLAGS: u32 = 32767;

/// `LiteParseGraphic.kind` values.
pub const LITEPARSE_GRAPHIC_STROKE: u32 = 0;
pub const LITEPARSE_GRAPHIC_RECT: u32 = 1;
/// `LiteParseGraphic.flags` bits.
pub const LITEPARSE_GRAPHIC_FLAG_HAS_FILL_COLOR: u32 = 1;
pub const LITEPARSE_GRAPHIC_FLAG_HAS_STROKE_COLOR: u32 = 2;
pub const GRAPHIC_FLAGS: u32 = 3;

/// `LiteParseStructNode.flags` bits.
pub const LITEPARSE_STRUCT_NODE_FLAG_HAS_BBOX: u32 = 1;
pub const STRUCT_NODE_FLAGS: u32 = 1;

/// `LiteParseAnnotation.flags` bits.
pub const LITEPARSE_ANNOTATION_FLAG_HAS_RECT: u32 = 1;
pub const ANNOTATION_FLAGS: u32 = 1;

/// `LiteParseFormField.flags` bits.
pub const LITEPARSE_FORM_FIELD_FLAG_HAS_OBJECT_NUMBER: u32 = 1;
pub const LITEPARSE_FORM_FIELD_FLAG_HAS_CONTROL_COUNT: u32 = 2;
pub const LITEPARSE_FORM_FIELD_FLAG_HAS_CONTROL_INDEX: u32 = 4;
pub const LITEPARSE_FORM_FIELD_FLAG_HAS_CHECKED: u32 = 8;
pub const LITEPARSE_FORM_FIELD_FLAG_CHECKED: u32 = 16;
pub const LITEPARSE_FORM_FIELD_FLAG_HAS_RECT: u32 = 32;
pub const FORM_FIELD_FLAGS: u32 = 63;

/// `LiteParseVectorShape.flags` / `LiteParseVectorLine.flags` bits.
pub const LITEPARSE_VECTOR_FLAG_STROKE: u32 = 1;
pub const LITEPARSE_VECTOR_FLAG_FILL: u32 = 2;
pub const LITEPARSE_VECTOR_FLAG_HAS_STROKE_COLOR: u32 = 4;
pub const LITEPARSE_VECTOR_FLAG_HAS_FILL_COLOR: u32 = 8;
pub const LITEPARSE_VECTOR_FLAG_HAS_CURVE: u32 = 16;
pub const LITEPARSE_VECTOR_FLAG_HAS_STROKE_WIDTH: u32 = 32;
pub const VECTOR_FLAGS: u32 = 63;

/// One text item; single-precision fields are `f32` bits. Ranges index the
/// view's words and character codes.
#[derive(Clone, Copy, Debug, PartialEq, Eq, Structural)]
pub struct LiteParseTextItem {
    pub text: LiteParseStr,
    pub font_name: LiteParseStr,
    pub link: LiteParseStr,
    pub x: u32,
    pub y: u32,
    pub width: u32,
    pub height: u32,
    pub rotation: u32,
    pub font_size: u32,
    pub confidence: u32,
    pub font_height: u32,
    pub font_ascent: u32,
    pub font_descent: u32,
    pub text_width: u32,
    pub font_flags: i32,
    pub font_weight: i32,
    pub mcid: i32,
    pub fill_color: u32,
    pub stroke_color: u32,
    pub char_code_offset: u32,
    pub char_code_count: u32,
    pub word_offset: u32,
    pub word_count: u32,
    pub flags: u32,
}

/// A word box in top-left-origin 72-DPI page space.
#[derive(Clone, Copy, Debug, PartialEq, Eq, Structural)]
pub struct LiteParseWordBox {
    pub text: LiteParseStr,
    pub x: u32,
    pub y: u32,
    pub width: u32,
    pub height: u32,
}

/// A word as the parsing core holds it.
pub struct WordBox {
    pub text: String,
    pub x: u32,
    pub y: u32,
    pub width: u32,
    pub height: u32,
}

/// A text item as the parsing core holds it; colours are hex strings.
pub struct TextItem {
    pub text: String,
    pub x: u32,
    pub y: u32,
    pub width: u32,
    pub height: u32,
    pub rotation: u32,
    pub font_name: Option<String>,
    pub font_size: Option<u32>,
    pub font_height: Option<u32>,
    pub font_ascent: Option<u32>,
    pub font_descent: Option<u32>,
    pub font_weight: Option<i32>,
    pub font_flags: Option<i32>,
    pub text_width: Option<u32>,
    pub font_is_buggy: bool,
    pub has_unicode_map_error: bool,
    pub mcid: Option<i32>,
    pub fill_color: Option<String>,
    pub stroke_color: Option<String>,
    pub char_codes: Vec<u32>,
    pub trailing_space_generated: bool,
    pub confidence: Option<u32>,
    pub link: Option<String>,
    pub strike: bool,
    pub words: Vec<WordBox>,
}

/// The flat arrays page records read from.
pub struct PageArrays<'a> {
    pub pool: &'a [u8],
    pub items: &'a [LiteParseTextItem],
    pub words: &'a [LiteParseWordBox],
    pub char_codes: &'a [u32],
}

/// The place of element `index` of `field` under `where_`.
pub open spec fn place_of(where_: Seq<char>, field: Seq<char>, index: nat) -> Seq<char> {
    where_ + "."@ + field + "["@ + decimal(index) + "]"@
}

pub fn place(where_: &str, field: &str, index: usize) -> (s: String)
    ensures
        s@ == place_of(where_@, field@, index as nat),
{
    let mut s = String::from_str(where_);
    s.append(".");
    s.append(field);
    s.append("[");
    push_decimal(&mut s, index as u64);
    s.append("]");
    s
}

// Words.
/// The first failing check of a word record of an item at `what`.
pub open spec fn word_error(pool: Seq<u8>, w: LiteParseWordBox, what: Seq<char>) -> Option<Seq<char>> {
    if !all_finite(seq![w.x, w.y, w.width, w.height]) {
        Some(label_of(what, "words"@) + " must be finite"@)
    } else if !str_ok(pool, w.text) {
        Some(str_error(pool, w.text, what, "words.text"@))
    } else {
        None
    }
}

pub open spec fn word_matches(o: WordBox, pool: Seq<u8>, w: LiteParseWordBox) -> bool {
    &&& o.text@ == text_or_empty(pool, w.text)
    &&& o.x == w.x && o.y == w.y && o.width == w.width && o.height == w.height
}

fn copy_word(pool: &[u8], w: &LiteParseWordBox, what: &str) -> (r: FfiResult<WordBox>)
    ensures
        r is Ok <==> word_error(pool@, *w, what@) is None,
        r matches Ok(o) ==> word_matches(o, pool@, *w),
        r matches Err(e) ==> e.status == LITEPARSE_STATUS_INVALID_ARGUMENT && Some(e.message@)
            == word_error(pool@, *w, what@),
{
    let values = vec![w.x, w.y, w.width, w.height];
    assert(values@ == seq![w.x, w.y, w.width, w.height]);
    match finite(values.as_slice(), what, "words") {
        Ok(()) => {},
        Err(e) => return Err(e),
    }
    let text = match text_field(pool, w.text, what, "words.text") {
        Ok(t) => t,
        Err(e) => return Err(e),
    };
    Ok(WordBox { text, x: w.x, y: w.y, width: w.width, height: w.height })
}

/// The first failure reading the words of an item at `what`.
pub open spec fn words_error(pool: Seq<u8>, ws: Seq<LiteParseWordBox>, what: Seq<char>) -> Option<Seq<char>> {
    let i = first_fail(ws, |w: LiteParseWordBox| word_error(pool, w, what) is None);
    if i < ws.len() {
        word_error(pool, ws[i], what)
    } else {
        None
    }
}

fn copy_words(pool: &[u8], ws: &[LiteParseWordBox], what: &str) -> (r: FfiResult<Vec<WordBox>>)
    ensures
        r is Ok <==> words_error(pool@, ws@, what@) is None,
        r matches Ok(v) ==> v@.len() == ws@.len() && forall|k: int|
            0 <= k < ws@.len() ==> word_matches(#[trigger] v@[k], pool@, ws@[k]),
        r matches Err(e) ==> e.status == LITEPARSE_STATUS_INVALID_ARGUMENT && Some(e.message@)
            == words_error(pool@, ws@, what@),
{
    let ghost ok = |w: LiteParseWordBox| word_error(pool@, w, what@) is None;
    let mut out: Vec<WordBox> = Vec::new();
    let mut i: usize = 0;
    while i < ws.len()
        invariant
            0 <= i <= ws@.len(),
            ok == (|w: LiteParseWordBox| word_error(pool@, w, what@) is None),
            forall|k: int| 0 <= k < i ==> ok(#[trigger] ws@[k]),
            out@.len() == i,
            forall|k: int| 0 <= k < i ==> word_matches(#[trigger] out@[k], pool@, ws@[k]),
        decreases ws@.len() - i,
    {
        proof {
            lemma_first_fail(ws@, ok);
        }
        match copy_word(pool, &ws[i], what) {
            Ok(w) => out.push(w),
            Err(e) => {
                assert(first_fail(ws@, ok) == i);
                return Err(e);
            },
        }
        i = i + 1;
    }
    proof {
        lemma_first_fail(ws@, ok);
    }
    Ok(out)
}

// Text items.
pub open spec fn has_bit(flags: u32, bit: u32) -> bool {
    flags & bit != 0
}

/// Whether a flagged metric is not finite.
pub open spec fn metric_bad(flags: u32, bit: u32, v: u32) -> bool {
    has_bit(flags, bit) && !crate::check::f32_finite(v)
}

pub open spec fn metrics_bad(it: LiteParseTextItem) -> bool {
    ||| metric_bad(it.flags, LITEPARSE_TEXT_ITEM_FLAG_HAS_FONT_SIZE, it.font_size)
    ||| metric_bad(it.flags, LITEPARSE_TEXT_ITEM_FLAG_HAS_CONFIDENCE, it.confidence)
    ||| metric_bad(it.flags, LITEPARSE_TEXT_ITEM_FLAG_HAS_FONT_HEIGHT, it.font_height)
    ||| metric_bad(it.flags, LITEPARSE_TEXT_ITEM_FLAG_HAS_FONT_ASCENT, it.font_ascent)
    ||| metric_bad(it.flags, LITEPARSE_TEXT_ITEM_FLAG_HAS_FONT_DESCENT, it.font_descent)
    ||| metric_bad(it.flags, LITEPARSE_TEXT_ITEM_FLAG_HAS_TEXT_WIDTH, it.text_width)
}

/// The first failing check of a text item record at `what`, in the order
/// they are made.
pub open spec fn item_error(
    pool: Seq<u8>,
    words: Seq<LiteParseWordBox>,
    char_codes: Seq<u32>,
    it: LiteParseTextItem,
    what: Seq<char>,
) -> Option<Seq<char>> {
    if !all_finite(seq![it.x, it.y, it.width, it.height, it.rotation]) {
        Some(label_of(what, "geometry"@) + " must be finite"@)
    } else if !only_known(it.flags, TEXT_ITEM_FLAGS) {
        Some(label_of(what, ""@) + ".flags contains unknown bits"@)
    } else if metrics_bad(it) {
        Some(what + " font metrics must be finite"@)
    } else if !range_fits(it.char_code_offset, it.char_code_count, char_codes.len()) {
        Some(range_message(what, "char_codes"@, it.char_code_offset, it.char_code_count, char_codes.len()))
    } else if !range_fits(it.word_offset, it.word_count, words.len()) {
        Some(range_message(what, "words"@, it.word_offset, it.word_count, words.len()))
    } else if words_error(pool, range_of(words, it.word_offset, it.word_count), what) is Some {
        words_error(pool, range_of(words, it.word_offset, it.word_count), what)
    } else if !str_ok(pool, it.text) {
        Some(str_error(pool, it.text, what, "text"@))
    } else if !str_ok(pool, it.font_name) {
        Some(str_error(pool, it.font_name, what, "font_name"@))
    } else if !str_ok(pool, it.link) {
        Some(str_error(pool, it.link, what, "link"@))
    } else {
        None
    }
}

/// A packed ARGB colour as the core spells it, when its flag is set.
pub open spec fn flagged_hex(flags: u32, bit: u32, argb: u32) -> Option<Seq<char>> {
    if has_bit(flags, bit) {
        Some(hex_digits(argb as nat, 8))
    } else {
        None
    }
}

/// `o` is what text item record `it` holds.
pub open spec fn item_matches(
    o: TextItem,
    pool: Seq<u8>,
    words: Seq<LiteParseWordBox>,
    char_codes: Seq<u32>,
    it: LiteParseTextItem,
) -> bool {
    let f = it.flags;
    let ws = range_of(words, it.word_offset, it.word_count);
    &&& o.text@ == text_or_empty(pool, it.text)
    &&& o.x == it.x && o.y == it.y && o.width == it.width && o.height == it.height
    &&& o.rotation == it.rotation
    &&& opt_view(o.font_name) == str_text(pool, it.font_name)
    &&& o.font_size == flagged(f, LITEPARSE_TEXT_ITEM_FLAG_HAS_FONT_SIZE, it.font_size)
    &&& o.font_height == flagged(f, LITEPARSE_TEXT_ITEM_FLAG_HAS_FONT_HEIGHT, it.font_height)
    &&& o.font_ascent == flagged(f, LITEPARSE_TEXT_ITEM_FLAG_HAS_FONT_ASCENT, it.font_ascent)
    &&& o.font_descent == flagged(f, LITEPARSE_TEXT_ITEM_FLAG_HAS_FONT_DESCENT, it.font_descent)
    &&& o.font_weight == flagged(f, LITEPARSE_TEXT_ITEM_FLAG_HAS_FONT_WEIGHT, it.font_weight)
    &&& o.font_flags == flagged(f, LITEPARSE_TEXT_ITEM_FLAG_HAS_FONT_FLAGS, it.font_flags)
    &&& o.text_width == flagged(f, LITEPARSE_TEXT_ITEM_FLAG_HAS_TEXT_WIDTH, it.text_width)
    &&& o.font_is_buggy == has_bit(f, LITEPARSE_TEXT_ITEM_FLAG_FONT_IS_BUGGY)
    &&& o.has_unicode_map_error == has_bit(f, LITEPARSE_TEXT_ITEM_FLAG_UNICODE_MAP_ERROR)
    &&& o.mcid == flagged(f, LITEPARSE_TEXT_ITEM_FLAG_HAS_MCID, it.mcid)
    &&& opt_view(o.fill_color) == flagged_hex(f, LITEPARSE_TEXT_ITEM_FLAG_HAS_FILL_COLOR, it.fill_color)
    &&& opt_view(o.stroke_color) == flagged_hex(
        f,
        LITEPARSE_TEXT_ITEM_FLAG_HAS_STROKE_COLOR,
        it.stroke_color,
    )
    &&& o.char_codes@ == range_of(char_codes, it.char_code_offset, it.char_code_count)
    &&& o.trailing_space_generated == has_bit(f, LITEPARSE_TEXT_ITEM_FLAG_TRAILING_SPACE_GENERATED)
    &&& o.confidence == flagged(f, LITEPARSE_TEXT_ITEM_FLAG_HAS_CONFIDENCE, it.confidence)
    &&& opt_view(o.link) == str_text(pool, it.link)
    &&& o.strike == has_bit(f, LITEPARSE_TEXT_ITEM_FLAG_STRIKE)
    &&& o.words@.len() == ws.len()
    &&& forall|k: int| 0 <= k < ws.len() ==> word_matches(#[trigger] o.words@[k], pool, ws[k])
}

fn flag_opt<T: Copy>(flags: u32, bit: u32, v: T) -> (r: Option<T>)
    ensures
        r == flagged(flags, bit, v),
{
    if flags & bit != 0 {
        Some(v)
    } else {
        None
    }
}

fn flag_hex(flags: u32, bit: u32, argb: u32) -> (r: Option<String>)
    ensures
        opt_view(r) == flagged_hex(flags, bit, argb),
{
    if flags & bit != 0 {
        Some(hex_from_argb(argb))
    } else {
        None
    }
}

fn copy_codes(codes: &[u32]) -> (r: Vec<u32>)
    ensures
        r@ == codes@,
{
    let mut out: Vec<u32> = Vec::new();
    crate::projected::append_copies(&mut out, codes);
    out
}

fn metric_check(flags: u32, bit: u32, v: u32) -> (r: bool)
    ensures
        r == metric_bad(flags, bit, v),
{
    flags & bit != 0 && !crate::check::is_finite(v)
}

/// Read one text item record at place `what`.
pub fn copy_text_item(item: &LiteParseTextItem, what: &str, arrays: &PageArrays) -> (r: FfiResult<TextItem>)
    ensures
        r is Ok <==> item_error(arrays.pool@, arrays.words@, arrays.char_codes@, *item, what@) is None,
        r matches Ok(o) ==> item_matches(o, arrays.pool@, arrays.words@, arrays.char_codes@, *item),
        r matches Err(e) ==> e.status == LITEPARSE_STATUS_INVALID_ARGUMENT && Some(e.message@)
            == item_error(arrays.pool@, arrays.words@, arrays.char_codes@, *item, what@),
{
    let pool = arrays.pool;
    let geometry = vec![item.x, item.y, item.width, item.height, item.rotation];
    assert(geometry@ == seq![item.x, item.y, item.width, item.height, item.rotation]);
    match finite(geometry.as_slice(), what, "geometry") {
        Ok(()) => {},
        Err(e) => return Err(e),
    }
    match known_flags(item.flags, TEXT_ITEM_FLAGS, what, "") {
        Ok(()) => {},
        Err(e) => return Err(e),
    }
    let f = item.flags;
    if metric_check(f, LITEPARSE_TEXT_ITEM_FLAG_HAS_FONT_SIZE, item.font_size) || metric_check(
        f,
        LITEPARSE_TEXT_ITEM_FLAG_HAS_CONFIDENCE,
        item.confidence,
    ) || metric_check(f, LITEPARSE_TEXT_ITEM_FLAG_HAS_FONT_HEIGHT, item.font_height)
        || metric_check(f, LITEPARSE_TEXT_ITEM_FLAG_HAS_FONT_ASCENT, item.font_ascent)
        || metric_check(f, LITEPARSE_TEXT_ITEM_FLAG_HAS_FONT_DESCENT, item.font_descent)
        || metric_check(f, LITEPARSE_TEXT_ITEM_FLAG_HAS_TEXT_WIDTH, item.text_width) {
        let mut message = String::from_str(what);
        message.append(" font metrics must be finite");
        return Err(FfiError::invalid_argument(message));
    }
    let char_codes = match crate::check::sub(
        arrays.char_codes,
        item.char_code_offset,
        item.char_code_count,
        what,
        "char_codes",
    ) {
        Ok(c) => c,
        Err(e) => return Err(e),
    };
    let words = match crate::check::sub(arrays.words, item.word_offset, item.word_count, what, "words") {
        Ok(w) => w,
        Err(e) => return Err(e),
    };
    let copied_words = match copy_words(pool, words, what) {
        Ok(w) => w,
        Err(e) => return Err(e),
    };
    let text = match text_field(pool, item.text, what, "text") {
        Ok(t) => t,
        Err(e) => return Err(e),
    };
    let font_name = match str_field(pool, item.font_name, what, "font_name") {
        Ok(t) => t,
        Err(e) => return Err(e),
    };
    let link = match str_field(pool, item.link, what, "link") {
        Ok(t) => t,
        Err(e) => return Err(e),
    };
    Ok(
        TextItem {
            text,
            x: item.x,
            y: item.y,
            width: item.width,
            height: item.height,
            rotation: item.rotation,
            font_name,
            font_size: flag_opt(f, LITEPARSE_TEXT_ITEM_FLAG_HAS_FONT_SIZE, item.font_size),
            font_height: flag_opt(f, LITEPARSE_TEXT_ITEM_FLAG_HAS_FONT_HEIGHT, item.font_height),
            font_ascent: flag_opt(f, LITEPARSE_TEXT_ITEM_FLAG_HAS_FONT_ASCENT, item.font_ascent),
            font_descent: flag_opt(f, LITEPARSE_TEXT_ITEM_FLAG_HAS_FONT_DESCENT, item.font_descent),
            font_weight: flag_opt(f, LITEPARSE_TEXT_ITEM_FLAG_HAS_FONT_WEIGHT, item.font_weight),
            font_flags: flag_opt(f, LITEPARSE_TEXT_ITEM_FLAG_HAS_FONT_FLAGS, item.font_flags),
            text_width: flag_opt(f, LITEPARSE_TEXT_ITEM_FLAG_HAS_TEXT_WIDTH, item.text_width),
            font_is_buggy: f & LITEPARSE_TEXT_ITEM_FLAG_FONT_IS_BUGGY != 0,
            has_unicode_map_error: f & LITEPARSE_TEXT_ITEM_FLAG_UNICODE_MAP_ERROR != 0,
            mcid: flag_opt(f, LITEPARSE_TEXT_ITEM_FLAG_HAS_MCID, item.mcid),
            fill_color: flag_hex(f, LITEPARSE_TEXT_ITEM_FLAG_HAS_FILL_COLOR, item.fill_color),
            stroke_color: flag_hex(f, LITEPARSE_TEXT_ITEM_FLAG_HAS_STROKE_COLOR, item.stroke_color),
            char_codes: copy_codes(char_codes),
            trailing_space_generated: f & LITEPARSE_TEXT_ITEM_FLAG_TRAILING_SPACE_GENERATED != 0,
            confidence: flag_opt(f, LITEPARSE_TEXT_ITEM_FLAG_HAS_CONFIDENCE, item.confidence),
            link,
            strike: f & LITEPARSE_TEXT_ITEM_FLAG_STRIKE != 0,
            words: copied_words,
        },
    )
}


/// The least index below `n` failing `ok`, or `n`.
pub open spec fn first_bad(ok: spec_fn(int) -> bool, n: int) -> int
    decreases n,
{
    if n <= 0 {
        0
    } else {
        let p = first_bad(ok, n - 1);
        if p < n - 1 {
            p
        } else if !ok(n - 1) {
            n - 1
        } else {
            n
        }
    }
}

pub proof fn lemma_first_bad(ok: spec_fn(int) -> bool, n: int)
    requires
        n >= 0,
    ensures
        0 <= first_bad(ok, n) <= n,
        forall|i: int| 0 <= i < first_bad(ok, n) ==> #[trigger] ok(i),
        first_bad(ok, n) < n ==> !ok(first_bad(ok, n)),
    decreases n,
{
    if n > 0 {
        lemma_first_bad(ok, n - 1);
    }
}

// Graphics.
/// A layout graphic primitive as the core holds it.
pub enum GraphicPrimitive {
    Stroke { x1: u32, y1: u32, x2: u32, y2: u32, color: Option<String>, width: u32 },
    Rect { bbox: LiteParseRect, fill: Option<String>, stroke: Option<String> },
}

/// A layout graphic primitive; strokes use `x1..y2` and `line_width`,
/// rects `bbox`.
#[derive(Clone, Copy, Debug, PartialEq, Eq, Structural)]
pub struct LiteParseGraphic {
    pub kind: u32,
    pub flags: u32,
    pub x1: u32,
    pub y1: u32,
    pub x2: u32,
    pub y2: u32,
    pub line_width: u32,
    pub bbox: LiteParseRect,
    pub fill_color: u32,
    pub stroke_color: u32,
}

pub open spec fn graphic_error(g: LiteParseGraphic, what: Seq<char>) -> Option<Seq<char>> {
    if !only_known(g.flags, GRAPHIC_FLAGS) {
        Some(label_of(what, ""@) + ".flags contains unknown bits"@)
    } else if g.kind == LITEPARSE_GRAPHIC_STROKE {
        if !all_finite(seq![g.x1, g.y1, g.x2, g.y2, g.line_width]) {
            Some(label_of(what, "stroke geometry"@) + " must be finite"@)
        } else {
            None
        }
    } else if g.kind == LITEPARSE_GRAPHIC_RECT {
        if !rect_finite(g.bbox) {
            Some(label_of(what, "bbox"@) + " must be finite"@)
        } else {
            None
        }
    } else {
        Some(what + " has unknown graphic kind "@ + decimal(g.kind as nat))
    }
}

pub open spec fn graphic_matches(o: GraphicPrimitive, g: LiteParseGraphic) -> bool {
    let stroke = flagged_hex(g.flags, LITEPARSE_GRAPHIC_FLAG_HAS_STROKE_COLOR, g.stroke_color);
    let fill = flagged_hex(g.flags, LITEPARSE_GRAPHIC_FLAG_HAS_FILL_COLOR, g.fill_color);
    if g.kind == LITEPARSE_GRAPHIC_STROKE {
        o matches GraphicPrimitive::Stroke { x1, y1, x2, y2, color, width } && x1 == g.x1 && y1
            == g.y1 && x2 == g.x2 && y2 == g.y2 && opt_view(color) == stroke && width
            == g.line_width
    } else {
        o matches GraphicPrimitive::Rect { bbox, fill: f, stroke: s } && bbox == g.bbox
            && opt_view(f) == fill && opt_view(s) == stroke
    }
}

/// Read one graphic record at place `what`.
pub fn copy_graphic(g: &LiteParseGraphic, what: &str) -> (r: FfiResult<GraphicPrimitive>)
    ensures
        r is Ok <==> graphic_error(*g, what@) is None,
        r matches Ok(o) ==> graphic_matches(o, *g),
        r matches Err(e) ==> e.status == LITEPARSE_STATUS_INVALID_ARGUMENT && Some(e.message@)
            == graphic_error(*g, what@),
{
    match known_flags(g.flags, GRAPHIC_FLAGS, what, "") {
        Ok(()) => {},
        Err(e) => return Err(e),
    }
    let fill = flag_hex(g.flags, LITEPARSE_GRAPHIC_FLAG_HAS_FILL_COLOR, g.fill_color);
    let stroke = flag_hex(g.flags, LITEPARSE_GRAPHIC_FLAG_HAS_STROKE_COLOR, g.stroke_color);
    if g.kind == LITEPARSE_GRAPHIC_STROKE {
        let values = vec![g.x1, g.y1, g.x2, g.y2, g.line_width];
        assert(values@ == seq![g.x1, g.y1, g.x2, g.y2, g.line_width]);
        match finite(values.as_slice(), what, "stroke geometry") {
            Ok(()) => {},
            Err(e) => return Err(e),
        }
        Ok(GraphicPrimitive::Stroke { x1: g.x1, y1: g.y1, x2: g.x2, y2: g.y2, color: stroke, width: g.line_width })
    } else if g.kind == LITEPARSE_GRAPHIC_RECT {
        match finite_rect(&g.bbox, what, "bbox") {
            Ok(()) => {},
            Err(e) => return Err(e),
        }
        Ok(GraphicPrimitive::Rect { bbox: g.bbox, fill, stroke })
    } else {
        let mut message = String::from_str(what);
        message.append(" has unknown graphic kind ");
        push_decimal(&mut message, g.kind as u64);
        Err(FfiError::invalid_argument(message))
    }
}

// Structure nodes used for heading and figure detection.
/// One pre-order structure node; `mcid_offset/count` index the view's
/// marked-content ids.
#[derive(Clone, Copy, Debug, PartialEq, Eq, Structural)]
pub struct LiteParseStructNode {
    pub role: LiteParseStr,
    pub alt_text: LiteParseStr,
    pub bbox: LiteParseRect,
    pub mcid_offset: u32,
    pub mcid_count: u32,
    pub flags: u32,
}

pub struct StructNode {
    pub role: String,
    pub mcids: Vec<i32>,
    pub bbox: Option<LiteParseRect>,
    pub alt_text: Option<String>,
}

pub open spec fn struct_node_error(pool: Seq<u8>, mcids: Seq<i32>, n: LiteParseStructNode, what: Seq<char>) -> Option<
    Seq<char>,
> {
    if !only_known(n.flags, STRUCT_NODE_FLAGS) {
        Some(label_of(what, ""@) + ".flags contains unknown bits"@)
    } else if !str_ok(pool, n.role) {
        Some(str_error(pool, n.role, what, "role"@))
    } else if !range_fits(n.mcid_offset, n.mcid_count, mcids.len()) {
        Some(range_message(what, "mcids"@, n.mcid_offset, n.mcid_count, mcids.len()))
    } else if has_bit(n.flags, LITEPARSE_STRUCT_NODE_FLAG_HAS_BBOX) && !rect_finite(n.bbox) {
        Some(label_of(what, "bbox"@) + " must be finite"@)
    } else if !str_ok(pool, n.alt_text) {
        Some(str_error(pool, n.alt_text, what, "alt_text"@))
    } else {
        None
    }
}

pub open spec fn struct_node_matches(o: StructNode, pool: Seq<u8>, mcids: Seq<i32>, n: LiteParseStructNode) -> bool {
    &&& o.role@ == text_or_empty(pool, n.role)
    &&& o.mcids@ == range_of(mcids, n.mcid_offset, n.mcid_count)
    &&& o.bbox == flagged(n.flags, LITEPARSE_STRUCT_NODE_FLAG_HAS_BBOX, n.bbox)
    &&& opt_view(o.alt_text) == str_text(pool, n.alt_text)
}

fn copy_i32s(values: &[i32]) -> (r: Vec<i32>)
    ensures
        r@ == values@,
{
    let mut out: Vec<i32> = Vec::new();
    crate::projected::append_copies(&mut out, values);
    out
}

pub fn copy_struct_node(pool: &[u8], mcids: &[i32], n: &LiteParseStructNode, what: &str) -> (r: FfiResult<StructNode>)
    ensures
        r is Ok <==> struct_node_error(pool@, mcids@, *n, what@) is None,
        r matches Ok(o) ==> struct_node_matches(o, pool@, mcids@, *n),
        r matches Err(e) ==> e.status == LITEPARSE_STATUS_INVALID_ARGUMENT && Some(e.message@)
            == struct_node_error(pool@, mcids@, *n, what@),
{
    match known_flags(n.flags, STRUCT_NODE_FLAGS, what, "") {
        Ok(()) => {},
        Err(e) => return Err(e),
    }
    let role = match text_field(pool, n.role, what, "role") {
        Ok(t) => t,
        Err(e) => return Err(e),
    };
    let ids = match crate::check::sub(mcids, n.mcid_offset, n.mcid_count, what, "mcids") {
        Ok(v) => v,
        Err(e) => return Err(e),
    };
    let bbox = match flagged_rect(n.flags, LITEPARSE_STRUCT_NODE_FLAG_HAS_BBOX, &n.bbox, what, "bbox") {
        Ok(b) => b,
        Err(e) => return Err(e),
    };
    let alt_text = match str_field(pool, n.alt_text, what, "alt_text") {
        Ok(t) => t,
        Err(e) => return Err(e),
    };
    Ok(StructNode { role, mcids: copy_i32s(ids), bbox, alt_text })
}

// Image references.
/// A raster image object of a page, present even when no bytes were
/// extracted; `rotation` is `f32` bits.
#[derive(Clone, Copy, Debug, PartialEq, Eq, Structural)]
pub struct LiteParseImageRef {
    pub id: LiteParseStr,
    pub format: LiteParseStr,
    pub bbox: LiteParseRect,
    pub obj_index: u32,
    pub pixel_width: u32,
    pub pixel_height: u32,
    pub bits_per_pixel: u32,
    pub colorspace: i32,
    pub rotation: u32,
}

pub struct ImageRef {
    pub id: String,
    pub bbox: LiteParseRect,
    pub obj_index: usize,
    pub format: String,
    pub pixel_width: u32,
    pub pixel_height: u32,
    pub rotation: u32,
    pub jpeg_bytes: Option<Vec<u8>>,
    pub raw_bytes: Option<Vec<u8>>,
    pub bits_per_pixel: u32,
    pub colorspace: i32,
}

pub open spec fn image_ref_error(pool: Seq<u8>, m: LiteParseImageRef, what: Seq<char>) -> Option<Seq<char>> {
    if !rect_finite(m.bbox) {
        Some(label_of(what, "bbox"@) + " must be finite"@)
    } else if !all_finite(seq![m.rotation]) {
        Some(label_of(what, "rotation"@) + " must be finite"@)
    } else if !str_ok(pool, m.id) {
        Some(str_error(pool, m.id, what, "id"@))
    } else if !str_ok(pool, m.format) {
        Some(str_error(pool, m.format, what, "format"@))
    } else {
        None
    }
}

pub open spec fn image_ref_matches(o: ImageRef, pool: Seq<u8>, m: LiteParseImageRef) -> bool {
    &&& o.id@ == text_or_empty(pool, m.id)
    &&& o.bbox == m.bbox
    &&& o.obj_index == m.obj_index
    &&& o.format@ == text_or_empty(pool, m.format)
    &&& o.pixel_width == m.pixel_width && o.pixel_height == m.pixel_height
    &&& o.rotation == m.rotation
    &&& o.jpeg_bytes is None && o.raw_bytes is None
    &&& o.bits_per_pixel == m.bits_per_pixel && o.colorspace == m.colorspace
}

pub fn copy_image_ref(pool: &[u8], m: &LiteParseImageRef, what: &str) -> (r: FfiResult<ImageRef>)
    ensures
        r is Ok <==> image_ref_error(pool@, *m, what@) is None,
        r matches Ok(o) ==> image_ref_matches(o, pool@, *m),
        r matches Err(e) ==> e.status == LITEPARSE_STATUS_INVALID_ARGUMENT && Some(e.message@)
            == image_ref_error(pool@, *m, what@),
{
    match finite_rect(&m.bbox, what, "bbox") {
        Ok(()) => {},
        Err(e) => return Err(e),
    }
    let rotation = vec![m.rotation];
    assert(rotation@ == seq![m.rotation]);
    match finite(rotation.as_slice(), what, "rotation") {
        Ok(()) => {},
        Err(e) => return Err(e),
    }
    let id = match text_field(pool, m.id, what, "id") {
        Ok(t) => t,
        Err(e) => return Err(e),
    };
    let format = match text_field(pool, m.format, what, "format") {
        Ok(t) => t,
        Err(e) => return Err(e),
    };
    Ok(
        ImageRef {
            id,
            bbox: m.bbox,
            obj_index: m.obj_index as usize,
            format,
            pixel_width: m.pixel_width,
            pixel_height: m.pixel_height,
            rotation: m.rotation,
            jpeg_bytes: None,
            raw_bytes: None,
            bits_per_pixel: m.bits_per_pixel,
            colorspace: m.colorspace,
        },
    )
}


// Annotations.
/// A page or structure-node annotation; `quadpoint_offset/count` index the
/// view's quadpoints.
#[derive(Clone, Copy, Debug, PartialEq, Eq, Structural)]
pub struct LiteParseAnnotation {
    pub subtype: LiteParseStr,
    pub contents: LiteParseStr,
    pub created: LiteParseStr,
    pub modified: LiteParseStr,
    pub title: LiteParseStr,
    pub uri: LiteParseStr,
    pub rect: LiteParseRect,
    pub quadpoint_offset: u32,
    pub quadpoint_count: u32,
    pub flags: u32,
}

pub struct DocumentAnnotation {
    pub subtype: String,
    pub contents: Option<String>,
    pub created: Option<String>,
    pub modified: Option<String>,
    pub title: Option<String>,
    pub rect: Option<LiteParseRect>,
    pub quadpoint_rects: Vec<LiteParseRect>,
    pub uri: Option<String>,
}

pub open spec fn rects_ok(rs: Seq<LiteParseRect>) -> bool {
    forall|k: int| 0 <= k < rs.len() ==> rect_finite(#[trigger] rs[k])
}

pub open spec fn annotation_error(pool: Seq<u8>, quads: Seq<LiteParseRect>, a: LiteParseAnnotation, what: Seq<char>) -> Option<
    Seq<char>,
> {
    if !only_known(a.flags, ANNOTATION_FLAGS) {
        Some(label_of(what, ""@) + ".flags contains unknown bits"@)
    } else if has_bit(a.flags, LITEPARSE_ANNOTATION_FLAG_HAS_RECT) && !rect_finite(a.rect) {
        Some(label_of(what, "rect"@) + " must be finite"@)
    } else if !range_fits(a.quadpoint_offset, a.quadpoint_count, quads.len()) {
        Some(range_message(what, "quadpoints"@, a.quadpoint_offset, a.quadpoint_count, quads.len()))
    } else if !rects_ok(range_of(quads, a.quadpoint_offset, a.quadpoint_count)) {
        Some(label_of(what, "quadpoints"@) + " must be finite"@)
    } else if !str_ok(pool, a.subtype) {
        Some(str_error(pool, a.subtype, what, "subtype"@))
    } else if !str_ok(pool, a.contents) {
        Some(str_error(pool, a.contents, what, "contents"@))
    } else if !str_ok(pool, a.created) {
        Some(str_error(pool, a.created, what, "created"@))
    } else if !str_ok(pool, a.modified) {
        Some(str_error(pool, a.modified, what, "modified"@))
    } else if !str_ok(pool, a.title) {
        Some(str_error(pool, a.title, what, "title"@))
    } else if !str_ok(pool, a.uri) {
        Some(str_error(pool, a.uri, what, "uri"@))
    } else {
        None
    }
}

pub open spec fn annotation_matches(o: DocumentAnnotation, pool: Seq<u8>, quads: Seq<LiteParseRect>, a: LiteParseAnnotation) -> bool {
    &&& o.subtype@ == text_or_empty(pool, a.subtype)
    &&& opt_view(o.contents) == str_text(pool, a.contents)
    &&& opt_view(o.created) == str_text(pool, a.created)
    &&& opt_view(o.modified) == str_text(pool, a.modified)
    &&& opt_view(o.title) == str_text(pool, a.title)
    &&& o.rect == flagged(a.flags, LITEPARSE_ANNOTATION_FLAG_HAS_RECT, a.rect)
    &&& o.quadpoint_rects@ == range_of(quads, a.quadpoint_offset, a.quadpoint_count)
    &&& opt_view(o.uri) == str_text(pool, a.uri)
}

fn check_rects(rs: &[LiteParseRect], what: &str, field: &str) -> (r: FfiResult<()>)
    ensures
        r is Ok <==> rects_ok(rs@),
        r matches Err(e) ==> e.status == LITEPARSE_STATUS_INVALID_ARGUMENT && e.message@
            == label_of(what@, field@) + " must be finite"@,
{
    let mut i: usize = 0;
    while i < rs.len()
        invariant
            0 <= i <= rs@.len(),
            forall|k: int| 0 <= k < i ==> rect_finite(#[trigger] rs@[k]),
        decreases rs@.len() - i,
    {
        match finite_rect(&rs[i], what, field) {
            Ok(()) => {},
            Err(e) => return Err(e),
        }
        i = i + 1;
    }
    Ok(())
}

fn copy_rects(rs: &[LiteParseRect]) -> (r: Vec<LiteParseRect>)
    ensures
        r@ == rs@,
{
    let mut out: Vec<LiteParseRect> = Vec::new();
    crate::projected::append_copies(&mut out, rs);
    out
}

pub fn copy_annotation(pool: &[u8], quads: &[LiteParseRect], a: &LiteParseAnnotation, what: &str) -> (r: FfiResult<
    DocumentAnnotation,
>)
    ensures
        r is Ok <==> annotation_error(pool@, quads@, *a, what@) is None,
        r matches Ok(o) ==> annotation_matches(o, pool@, quads@, *a),
        r matches Err(e) ==> e.status == LITEPARSE_STATUS_INVALID_ARGUMENT && Some(e.message@)
            == annotation_error(pool@, quads@, *a, what@),
{
    match known_flags(a.flags, ANNOTATION_FLAGS, what, "") {
        Ok(()) => {},
        Err(e) => return Err(e),
    }
    let rect = match flagged_rect(a.flags, LITEPARSE_ANNOTATION_FLAG_HAS_RECT, &a.rect, what, "rect") {
        Ok(v) => v,
        Err(e) => return Err(e),
    };
    let points = match crate::check::sub(quads, a.quadpoint_offset, a.quadpoint_count, what, "quadpoints") {
        Ok(v) => v,
        Err(e) => return Err(e),
    };
    match check_rects(points, what, "quadpoints") {
        Ok(()) => {},
        Err(e) => return Err(e),
    }
    let subtype = match text_field(pool, a.subtype, what, "subtype") {
        Ok(t) => t,
        Err(e) => return Err(e),
    };
    let contents = match str_field(pool, a.contents, what, "contents") {
        Ok(t) => t,
        Err(e) => return Err(e),
    };
    let created = match str_field(pool, a.created, what, "created") {
        Ok(t) => t,
        Err(e) => return Err(e),
    };
    let modified = match str_field(pool, a.modified, what, "modified") {
        Ok(t) => t,
        Err(e) => return Err(e),
    };
    let title = match str_field(pool, a.title, what, "title") {
        Ok(t) => t,
        Err(e) => return Err(e),
    };
    let uri = match str_field(pool, a.uri, what, "uri") {
        Ok(t) => t,
        Err(e) => return Err(e),
    };
    Ok(
        DocumentAnnotation {
            subtype,
            contents,
            created,
            modified,
            title,
            rect,
            quadpoint_rects: copy_rects(points),
            uri,
        },
    )
}

/// The first failure reading `count` annotations from `offset`, each at
/// its place under `where_` and `field`.
pub open spec fn annotations_error(
    pool: Seq<u8>,
    quads: Seq<LiteParseRect>,
    all: Seq<LiteParseAnnotation>,
    offset: u32,
    count: u32,
    where_: Seq<char>,
    field: Seq<char>,
) -> Option<Seq<char>> {
    if !range_fits(offset, count, all.len()) {
        Some(range_message(where_, field, offset, count, all.len()))
    } else {
        let r = range_of(all, offset, count);
        let ok = |k: int| annotation_error(pool, quads, r[k], place_of(where_, field, k as nat)) is None;
        let i = first_bad(ok, r.len() as int);
        if i < r.len() {
            annotation_error(pool, quads, r[i], place_of(where_, field, i as nat))
        } else {
            None
        }
    }
}

pub fn copy_annotations(
    pool: &[u8],
    quads: &[LiteParseRect],
    all: &[LiteParseAnnotation],
    offset: u32,
    count: u32,
    where_: &str,
    field: &str,
) -> (r: FfiResult<Vec<DocumentAnnotation>>)
    ensures
        r is Ok <==> annotations_error(pool@, quads@, all@, offset, count, where_@, field@) is None,
        r matches Ok(v) ==> v@.len() == range_of(all@, offset, count).len() && forall|k: int|
            0 <= k < v@.len() ==> annotation_matches(
                #[trigger] v@[k],
                pool@,
                quads@,
                range_of(all@, offset, count)[k],
            ),
        r matches Err(e) ==> e.status == LITEPARSE_STATUS_INVALID_ARGUMENT && Some(e.message@)
            == annotations_error(pool@, quads@, all@, offset, count, where_@, field@),
{
    let range = match crate::check::sub(all, offset, count, where_, field) {
        Ok(v) => v,
        Err(e) => return Err(e),
    };
    assert(range@ == range_of(all@, offset, count));
    let ghost ok = |k: int|
        annotation_error(pool@, quads@, range@[k], place_of(where_@, field@, k as nat)) is None;
    let mut out: Vec<DocumentAnnotation> = Vec::new();
    let mut i: usize = 0;
    while i < range.len()
        invariant
            0 <= i <= range@.len(),
            range@ == range_of(all@, offset, count),
            range_fits(offset, count, all@.len()),
            ok == (|k: int|
                annotation_error(pool@, quads@, range@[k], place_of(where_@, field@, k as nat))
                    is None),
            forall|k: int| 0 <= k < i ==> #[trigger] ok(k),
            out@.len() == i,
            forall|k: int| 0 <= k < i ==> annotation_matches(#[trigger] out@[k], pool@, quads@, range@[k]),
        decreases range@.len() - i,
    {
        proof {
            lemma_first_bad(ok, range@.len() as int);
        }
        let what = place(where_, field, i);
        match copy_annotation(pool, quads, &range[i], what.as_str()) {
            Ok(a) => out.push(a),
            Err(e) => {
                assert(!ok(i as int));
                assert(first_bad(ok, range@.len() as int) == i);
                return Err(e);
            },
        }
        assert(ok(i as int));
        i = i + 1;
    }
    proof {
        lemma_first_bad(ok, range@.len() as int);
    }
    Ok(out)
}

// Form fields.
/// An AcroForm widget; option ranges index the view's strings.
#[derive(Clone, Copy, Debug, PartialEq, Eq, Structural)]
pub struct LiteParseFormField {
    pub id: LiteParseStr,
    pub field_type: LiteParseStr,
    pub name: LiteParseStr,
    pub alternate_name: LiteParseStr,
    pub value: LiteParseStr,
    pub export_value: LiteParseStr,
    pub rect: LiteParseRect,
    pub page: u32,
    pub annotation_index: i32,
    pub widget_index: i32,
    pub object_number: i32,
    pub field_flags: i32,
    pub control_count: i32,
    pub control_index: i32,
    pub option_offset: u32,
    pub option_count: u32,
    pub selected_option_offset: u32,
    pub selected_option_count: u32,
    pub flags: u32,
}

pub struct FormField {
    pub id: String,
    pub field_type: String,
    pub page: u32,
    pub annotation_index: i32,
    pub widget_index: i32,
    pub object_number: Option<i32>,
    pub name: Option<String>,
    pub alternate_name: Option<String>,
    pub value: Option<String>,
    pub export_value: Option<String>,
    pub field_flags: i32,
    pub control_count: Option<i32>,
    pub control_index: Option<i32>,
    pub checked: Option<bool>,
    pub rect: Option<LiteParseRect>,
    pub options: Vec<String>,
    pub selected_options: Vec<String>,
}

pub open spec fn strings_error(
    pool: Seq<u8>,
    strings: Seq<LiteParseStr>,
    offset: u32,
    count: u32,
    what: Seq<char>,
    field: Seq<char>,
) -> Option<Seq<char>> {
    if !range_fits(offset, count, strings.len()) {
        Some(range_message(what, field, offset, count, strings.len()))
    } else {
        let r = range_of(strings, offset, count);
        if !crate::content::strs_ok(pool, r) {
            Some(str_error(pool, r[crate::content::first_bad_str(pool, r)], what, field))
        } else {
            None
        }
    }
}

pub open spec fn form_field_error(pool: Seq<u8>, strings: Seq<LiteParseStr>, f: LiteParseFormField, what: Seq<char>) -> Option<
    Seq<char>,
> {
    if !only_known(f.flags, FORM_FIELD_FLAGS) {
        Some(label_of(what, ""@) + ".flags contains unknown bits"@)
    } else if !str_ok(pool, f.id) {
        Some(str_error(pool, f.id, what, "id"@))
    } else if !str_ok(pool, f.field_type) {
        Some(str_error(pool, f.field_type, what, "field_type"@))
    } else if !str_ok(pool, f.name) {
        Some(str_error(pool, f.name, what, "name"@))
    } else if !str_ok(pool, f.alternate_name) {
        Some(str_error(pool, f.alternate_name, what, "alternate_name"@))
    } else if !str_ok(pool, f.value) {
        Some(str_error(pool, f.value, what, "value"@))
    } else if !str_ok(pool, f.export_value) {
        Some(str_error(pool, f.export_value, what, "export_value"@))
    } else if has_bit(f.flags, LITEPARSE_FORM_FIELD_FLAG_HAS_RECT) && !rect_finite(f.rect) {
        Some(label_of(what, "rect"@) + " must be finite"@)
    } else if strings_error(pool, strings, f.option_offset, f.option_count, what, "options"@) is Some {
        strings_error(pool, strings, f.option_offset, f.option_count, what, "options"@)
    } else {
        strings_error(
            pool,
            strings,
            f.selected_option_offset,
            f.selected_option_count,
            what,
            "selected_options"@,
        )
    }
}

pub open spec fn texts(v: Seq<String>) -> Seq<Seq<char>> {
    v.map_values(|s: String| s@)
}

pub open spec fn form_field_matches(o: FormField, pool: Seq<u8>, strings: Seq<LiteParseStr>, f: LiteParseFormField) -> bool {
    let fl = f.flags;
    &&& o.id@ == text_or_empty(pool, f.id)
    &&& o.field_type@ == text_or_empty(pool, f.field_type)
    &&& o.page == f.page && o.annotation_index == f.annotation_index && o.widget_index
        == f.widget_index
    &&& o.object_number == flagged(fl, LITEPARSE_FORM_FIELD_FLAG_HAS_OBJECT_NUMBER, f.object_number)
    &&& opt_view(o.name) == str_text(pool, f.name)
    &&& opt_view(o.alternate_name) == str_text(pool, f.alternate_name)
    &&& opt_view(o.value) == str_text(pool, f.value)
    &&& opt_view(o.export_value) == str_text(pool, f.export_value)
    &&& o.field_flags == f.field_flags
    &&& o.control_count == flagged(fl, LITEPARSE_FORM_FIELD_FLAG_HAS_CONTROL_COUNT, f.control_count)
    &&& o.control_index == flagged(fl, LITEPARSE_FORM_FIELD_FLAG_HAS_CONTROL_INDEX, f.control_index)
    &&& o.checked == flagged(
        fl,
        LITEPARSE_FORM_FIELD_FLAG_HAS_CHECKED,
        has_bit(fl, LITEPARSE_FORM_FIELD_FLAG_CHECKED),
    )
    &&& o.rect == flagged(fl, LITEPARSE_FORM_FIELD_FLAG_HAS_RECT, f.rect)
    &&& texts(o.options@) == crate::content::texts_of(
        pool,
        range_of(strings, f.option_offset, f.option_count),
    )
    &&& texts(o.selected_options@) == crate::content::texts_of(
        pool,
        range_of(strings, f.selected_option_offset, f.selected_option_count),
    )
}

pub fn copy_form_field(pool: &[u8], strings: &[LiteParseStr], f: &LiteParseFormField, what: &str) -> (r: FfiResult<
    FormField,
>)
    ensures
        r is Ok <==> form_field_error(pool@, strings@, *f, what@) is None,
        r matches Ok(o) ==> form_field_matches(o, pool@, strings@, *f),
        r matches Err(e) ==> e.status == LITEPARSE_STATUS_INVALID_ARGUMENT && Some(e.message@)
            == form_field_error(pool@, strings@, *f, what@),
{
    let fl = f.flags;
    match known_flags(fl, FORM_FIELD_FLAGS, what, "") {
        Ok(()) => {},
        Err(e) => return Err(e),
    }
    let id = match text_field(pool, f.id, what, "id") {
        Ok(t) => t,
        Err(e) => return Err(e),
    };
    let field_type = match text_field(pool, f.field_type, what, "field_type") {
        Ok(t) => t,
        Err(e) => return Err(e),
    };
    let name = match str_field(pool, f.name, what, "name") {
        Ok(t) => t,
        Err(e) => return Err(e),
    };
    let alternate_name = match str_field(pool, f.alternate_name, what, "alternate_name") {
        Ok(t) => t,
        Err(e) => return Err(e),
    };
    let value = match str_field(pool, f.value, what, "value") {
        Ok(t) => t,
        Err(e) => return Err(e),
    };
    let export_value = match str_field(pool, f.export_value, what, "export_value") {
        Ok(t) => t,
        Err(e) => return Err(e),
    };
    let rect = match flagged_rect(fl, LITEPARSE_FORM_FIELD_FLAG_HAS_RECT, &f.rect, what, "rect") {
        Ok(v) => v,
        Err(e) => return Err(e),
    };
    let options = match crate::content::copy_strings(
        pool,
        strings,
        f.option_offset,
        f.option_count,
        what,
        "options",
    ) {
        Ok(v) => v,
        Err(e) => return Err(e),
    };
    let selected_options = match crate::content::copy_strings(
        pool,
        strings,
        f.selected_option_offset,
        f.selected_option_count,
        what,
        "selected_options",
    ) {
        Ok(v) => v,
        Err(e) => return Err(e),
    };
    Ok(
        FormField {
            id,
            field_type,
            page: f.page,
            annotation_index: f.annotation_index,
            widget_index: f.widget_index,
            object_number: flag_opt(fl, LITEPARSE_FORM_FIELD_FLAG_HAS_OBJECT_NUMBER, f.object_number),
            name,
            alternate_name,
            value,
            export_value,
            field_flags: f.field_flags,
            control_count: flag_opt(fl, LITEPARSE_FORM_FIELD_FLAG_HAS_CONTROL_COUNT, f.control_count),
            control_index: flag_opt(fl, LITEPARSE_FORM_FIELD_FLAG_HAS_CONTROL_INDEX, f.control_index),
            checked: flag_opt(
                fl,
                LITEPARSE_FORM_FIELD_FLAG_HAS_CHECKED,
                fl & LITEPARSE_FORM_FIELD_FLAG_CHECKED != 0,
            ),
            rect,
            options,
            selected_options,
        },
    )
}


fn copy_text_item_at(item: &LiteParseTextItem, arrays: &PageArrays, what: &str) -> (r: FfiResult<TextItem>)
    ensures
        r is Ok <==> item_error(arrays.pool@, arrays.words@, arrays.char_codes@, *item, what@) is None,
        r matches Ok(o) ==> item_matches(o, arrays.pool@, arrays.words@, arrays.char_codes@, *item),
        r matches Err(e) ==> e.status == LITEPARSE_STATUS_INVALID_ARGUMENT && Some(e.message@)
            == item_error(arrays.pool@, arrays.words@, arrays.char_codes@, *item, what@),
{
    copy_text_item(item, what, arrays)
}

fn copy_graphic_at(g: &LiteParseGraphic, what: &str) -> (r: FfiResult<GraphicPrimitive>)
    ensures
        r is Ok <==> graphic_error(*g, what@) is None,
        r matches Ok(o) ==> graphic_matches(o, *g),
        r matches Err(e) ==> e.status == LITEPARSE_STATUS_INVALID_ARGUMENT && Some(e.message@)
            == graphic_error(*g, what@),
{
    copy_graphic(g, what)
}

fn copy_struct_node_at(pool: &[u8], mcids: &[i32], n: &LiteParseStructNode, what: &str) -> (r: FfiResult<StructNode>)
    ensures
        r is Ok <==> struct_node_error(pool@, mcids@, *n, what@) is None,
        r matches Ok(o) ==> struct_node_matches(o, pool@, mcids@, *n),
        r matches Err(e) ==> e.status == LITEPARSE_STATUS_INVALID_ARGUMENT && Some(e.message@)
            == struct_node_error(pool@, mcids@, *n, what@),
{
    copy_struct_node(pool, mcids, n, what)
}

fn copy_image_ref_at(pool: &[u8], m: &LiteParseImageRef, what: &str) -> (r: FfiResult<ImageRef>)
    ensures
        r is Ok <==> image_ref_error(pool@, *m, what@) is None,
        r matches Ok(o) ==> image_ref_matches(o, pool@, *m),
        r matches Err(e) ==> e.status == LITEPARSE_STATUS_INVALID_ARGUMENT && Some(e.message@)
            == image_ref_error(pool@, *m, what@),
{
    copy_image_ref(pool, m, what)
}

fn copy_form_field_at(pool: &[u8], strings: &[LiteParseStr], f: &LiteParseFormField, what: &str) -> (r: FfiResult<FormField>)
    ensures
        r is Ok <==> form_field_error(pool@, strings@, *f, what@) is None,
        r matches Ok(o) ==> form_field_matches(o, pool@, strings@, *f),
        r matches Err(e) ==> e.status == LITEPARSE_STATUS_INVALID_ARGUMENT && Some(e.message@)
            == form_field_error(pool@, strings@, *f, what@),
{
    copy_form_field(pool, strings, f, what)
}

/// The first failure reading `count` items records from
/// `offset`, each at its place under `where_`.
pub open spec fn items_error(pool: Seq<u8>, words: Seq<LiteParseWordBox>, char_codes: Seq<u32>, all: Seq<LiteParseTextItem>, offset: u32, count: u32, where_: Seq<char>) -> Option<Seq<char>> {
    if !range_fits(offset, count, all.len()) {
        Some(range_message(where_, "items"@, offset, count, all.len()))
    } else {
        let r = range_of(all, offset, count);
        let ok = |k: int| item_error(pool, words, char_codes, r[k], place_of(where_, "items"@, k as nat)) is None;
        let i = first_bad(ok, r.len() as int);
        if i < r.len() {
            item_error(pool, words, char_codes, r[i], place_of(where_, "items"@, i as nat))
        } else {
            None
        }
    }
}

pub fn copy_items(arrays: &PageArrays, all: &[LiteParseTextItem], offset: u32, count: u32, where_: &str) -> (r: FfiResult<Vec<TextItem>>)
    ensures
        r is Ok <==> items_error(arrays.pool@, arrays.words@, arrays.char_codes@, all@, offset, count, where_@) is None,
        r matches Ok(v) ==> v@.len() == range_of(all@, offset, count).len() && forall|k: int|
            0 <= k < v@.len() ==> item_matches(#[trigger] v@[k], arrays.pool@, arrays.words@, arrays.char_codes@, range_of(all@, offset, count)[k]),
        r matches Err(e) ==> e.status == LITEPARSE_STATUS_INVALID_ARGUMENT && Some(e.message@)
            == items_error(arrays.pool@, arrays.words@, arrays.char_codes@, all@, offset, count, where_@),
{
    let range = match crate::check::sub(all, offset, count, where_, "items") {
        Ok(v) => v,
        Err(e) => return Err(e),
    };
    assert(range@ == range_of(all@, offset, count));
    let ghost ok = |k: int| item_error(arrays.pool@, arrays.words@, arrays.char_codes@, range@[k], place_of(where_@, "items"@, k as nat)) is None;
    let mut out: Vec<TextItem> = Vec::new();
    let mut i: usize = 0;
    while i < range.len()
        invariant
            0 <= i <= range@.len(),
            range@ == range_of(all@, offset, count),
            range_fits(offset, count, all@.len()),
            ok == (|k: int| item_error(arrays.pool@, arrays.words@, arrays.char_codes@, range@[k], place_of(where_@, "items"@, k as nat)) is None),
            forall|k: int| 0 <= k < i ==> #[trigger] ok(k),
            out@.len() == i,
            forall|k: int| 0 <= k < i ==> item_matches(#[trigger] out@[k], arrays.pool@, arrays.words@, arrays.char_codes@, range@[k]),
        decreases range@.len() - i,
    {
        proof {
            lemma_first_bad(ok, range@.len() as int);
        }
        let what = place(where_, "items", i);
        match copy_text_item_at(&range[i], arrays, what.as_str()) {
            Ok(a) => out.push(a),
            Err(e) => {
                assert(!ok(i as int));
                assert(first_bad(ok, range@.len() as int) == i);
                return Err(e);
            },
        }
        assert(ok(i as int));
        i = i + 1;
    }
    proof {
        lemma_first_bad(ok, range@.len() as int);
    }
    Ok(out)
}

/// The first failure reading `count` graphics records from
/// `offset`, each at its place under `where_`.
pub open spec fn graphics_error(all: Seq<LiteParseGraphic>, offset: u32, count: u32, where_: Seq<char>) -> Option<Seq<char>> {
    if !range_fits(offset, count, all.len()) {
        Some(range_message(where_, "graphics"@, offset, count, all.len()))
    } else {
        let r = range_of(all, offset, count);
        let ok = |k: int| graphic_error(r[k], place_of(where_, "graphics"@, k as nat)) is None;
        let i = first_bad(ok, r.len() as int);
        if i < r.len() {
            graphic_error(r[i], place_of(where_, "graphics"@, i as nat))
        } else {
            None
        }
    }
}

pub fn copy_graphics(all: &[LiteParseGraphic], offset: u32, count: u32, where_: &str) -> (r: FfiResult<Vec<GraphicPrimitive>>)
    ensures
        r is Ok <==> graphics_error(all@, offset, count, where_@) is None,
        r matches Ok(v) ==> v@.len() == range_of(all@, offset, count).len() && forall|k: int|
            0 <= k < v@.len() ==> graphic_matches(#[trigger] v@[k], range_of(all@, offset, count)[k]),
        r matches Err(e) ==> e.status == LITEPARSE_STATUS_INVALID_ARGUMENT && Some(e.message@)
            == graphics_error(all@, offset, count, where_@),
{
    let range = match crate::check::sub(all, offset, count, where_, "graphics") {
        Ok(v) => v,
        Err(e) => return Err(e),
    };
    assert(range@ == range_of(all@, offset, count));
    let ghost ok = |k: int| graphic_error(range@[k], place_of(where_@, "graphics"@, k as nat)) is None;
    let mut out: Vec<GraphicPrimitive> = Vec::new();
    let mut i: usize = 0;
    while i < range.len()
        invariant
            0 <= i <= range@.len(),
            range@ == range_of(all@, offset, count),
            range_fits(offset, count, all@.len()),
            ok == (|k: int| graphic_error(range@[k], place_of(where_@, "graphics"@, k as nat)) is None),
            forall|k: int| 0 <= k < i ==> #[trigger] ok(k),
            out@.len() == i,
            forall|k: int| 0 <= k < i ==> graphic_matches(#[trigger] out@[k], range@[k]),
        decreases range@.len() - i,
    {
        proof {
            lemma_first_bad(ok, range@.len() as int);
        }
        let what = place(where_, "graphics", i);
        match copy_graphic_at(&range[i], what.as_str()) {
            Ok(a) => out.push(a),
            Err(e) => {
                assert(!ok(i as int));
                assert(first_bad(ok, range@.len() as int) == i);
                return Err(e);
            },
        }
        assert(ok(i as int));
        i = i + 1;
    }
    proof {
        lemma_first_bad(ok, range@.len() as int);
    }
    Ok(out)
}

/// The first failure reading `count` struct_nodes records from
/// `offset`, each at its place under `where_`.
pub open spec fn struct_nodes_error(pool: Seq<u8>, mcids: Seq<i32>, all: Seq<LiteParseStructNode>, offset: u32, count: u32, where_: Seq<char>) -> Option<Seq<char>> {
    if !range_fits(offset, count, all.len()) {
        Some(range_message(where_, "struct_nodes"@, offset, count, all.len()))
    } else {
        let r = range_of(all, offset, count);
        let ok = |k: int| struct_node_error(pool, mcids, r[k], place_of(where_, "struct_nodes"@, k as nat)) is None;
        let i = first_bad(ok, r.len() as int);
        if i < r.len() {
            struct_node_error(pool, mcids, r[i], place_of(where_, "struct_nodes"@, i as nat))
        } else {
            None
        }
    }
}

pub fn copy_struct_nodes(pool: &[u8], mcids: &[i32], all: &[LiteParseStructNode], offset: u32, count: u32, where_: &str) -> (r: FfiResult<Vec<StructNode>>)
    ensures
        r is Ok <==> struct_nodes_error(pool@, mcids@, all@, offset, count, where_@) is None,
        r matches Ok(v) ==> v@.len() == range_of(all@, offset, count).len() && forall|k: int|
            0 <= k < v@.len() ==> struct_node_matches(#[trigger] v@[k], pool@, mcids@, range_of(all@, offset, count)[k]),
        r matches Err(e) ==> e.status == LITEPARSE_STATUS_INVALID_ARGUMENT && Some(e.message@)
            == struct_nodes_error(pool@, mcids@, all@, offset, count, where_@),
{
    let range = match crate::check::sub(all, offset, count, where_, "struct_nodes") {
        Ok(v) => v,
        Err(e) => return Err(e),
    };
    assert(range@ == range_of(all@, offset, count));
    let ghost ok = |k: int| struct_node_error(pool@, mcids@, range@[k], place_of(where_@, "struct_nodes"@, k as nat)) is None;
    let mut out: Vec<StructNode> = Vec::new();
    let mut i: usize = 0;
    while i < range.len()
        invariant
            0 <= i <= range@.len(),
            range@ == range_of(all@, offset, count),
            range_fits(offset, count, all@.len()),
            ok == (|k: int| struct_node_error(pool@, mcids@, range@[k], place_of(where_@, "struct_nodes"@, k as nat)) is None),
            forall|k: int| 0 <= k < i ==> #[trigger] ok(k),
            out@.len() == i,
            forall|k: int| 0 <= k < i ==> struct_node_matches(#[trigger] out@[k], pool@, mcids@, range@[k]),
        decreases range@.len() - i,
    {
        proof {
            lemma_first_bad(ok, range@.len() as int);
        }
        let what = place(where_, "struct_nodes", i);
        match copy_struct_node_at(pool, mcids, &range[i], what.as_str()) {
            Ok(a) => out.push(a),
            Err(e) => {
                assert(!ok(i as int));
                assert(first_bad(ok, range@.len() as int) == i);
                return Err(e);
            },
        }
        assert(ok(i as int));
        i = i + 1;
    }
    proof {
        lemma_first_bad(ok, range@.len() as int);
    }
    Ok(out)
}

/// The first failure reading `count` image_refs records from
/// `offset`, each at its place under `where_`.
pub open spec fn image_refs_error(pool: Seq<u8>, all: Seq<LiteParseImageRef>, offset: u32, count: u32, where_: Seq<char>) -> Option<Seq<char>> {
    if !range_fits(offset, count, all.len()) {
        Some(range_message(where_, "image_refs"@, offset, count, all.len()))
    } else {
        let r = range_of(all, offset, count);
        let ok = |k: int| image_ref_error(pool, r[k], place_of(where_, "image_refs"@, k as nat)) is None;
        let i = first_bad(ok, r.len() as int);
        if i < r.len() {
            image_ref_error(pool, r[i], place_of(where_, "image_refs"@, i as nat))
        } else {
            None
        }
    }
}

pub fn copy_image_refs(pool: &[u8], all: &[LiteParseImageRef], offset: u32, count: u32, where_: &str) -> (r: FfiResult<Vec<ImageRef>>)
    ensures
        r is Ok <==> image_refs_error(pool@, all@, offset, count, where_@) is None,
        r matches Ok(v) ==> v@.len() == range_of(all@, offset, count).len() && forall|k: int|
            0 <= k < v@.len() ==> image_ref_matches(#[trigger] v@[k], pool@, range_of(all@, offset, count)[k]),
        r matches Err(e) ==> e.status == LITEPARSE_STATUS_INVALID_ARGUMENT && Some(e.message@)
            == image_refs_error(pool@, all@, offset, count, where_@),
{
    let range = match crate::check::sub(all, offset, count, where_, "image_refs") {
        Ok(v) => v,
        Err(e) => return Err(e),
    };
    assert(range@ == range_of(all@, offset, count));
    let ghost ok = |k: int| image_ref_error(pool@, range@[k], place_of(where_@, "image_refs"@, k as nat)) is None;
    let mut out: Vec<ImageRef> = Vec::new();
    let mut i: usize = 0;
    while i < range.len()
        invariant
            0 <= i <= range@.len(),
            range@ == range_of(all@, offset, count),
            range_fits(offset, count, all@.len()),
            ok == (|k: int| image_ref_error(pool@, range@[k], place_of(where_@, "image_refs"@, k as nat)) is None),
            forall|k: int| 0 <= k < i ==> #[trigger] ok(k),
            out@.len() == i,
            forall|k: int| 0 <= k < i ==> image_ref_matches(#[trigger] out@[k], pool@, range@[k]),
        decreases range@.len() - i,
    {
        proof {
            lemma_first_bad(ok, range@.len() as int);
        }
        let what = place(where_, "image_refs", i);
        match copy_image_ref_at(pool, &range[i], what.as_str()) {
            Ok(a) => out.push(a),
            Err(e) => {
                assert(!ok(i as int));
                assert(first_bad(ok, range@.len() as int) == i);
                return Err(e);
            },
        }
        assert(ok(i as int));
        i = i + 1;
    }
    proof {
        lemma_first_bad(ok, range@.len() as int);
    }
    Ok(out)
}

/// The first failure reading `count` form_fields records from
/// `offset`, each at its place under `where_`.
pub open spec fn form_fields_error(pool: Seq<u8>, strings: Seq<LiteParseStr>, all: Seq<LiteParseFormField>, offset: u32, count: u32, where_: Seq<char>) -> Option<Seq<char>> {
    if !range_fits(offset, count, all.len()) {
        Some(range_message(where_, "form_fields"@, offset, count, all.len()))
    } else {
        let r = range_of(all, offset, count);
        let ok = |k: int| form_field_error(pool, strings, r[k], place_of(where_, "form_fields"@, k as nat)) is None;
        let i = first_bad(ok, r.len() as int);
        if i < r.len() {
            form_field_error(pool, strings, r[i], place_of(where_, "form_fields"@, i as nat))
        } else {
            None
        }
    }
}

pub fn copy_form_fields(pool: &[u8], strings: &[LiteParseStr], all: &[LiteParseFormField], offset: u32, count: u32, where_: &str) -> (r: FfiResult<Vec<FormField>>)
    ensures
        r is Ok <==> form_fields_error(pool@, strings@, all@, offset, count, where_@) is None,
        r matches Ok(v) ==> v@.len() == range_of(all@, offset, count).len() && forall|k: int|
            0 <= k < v@.len() ==> form_field_matches(#[trigger] v@[k], pool@, strings@, range_of(all@, offset, count)[k]),
        r matches Err(e) ==> e.status == LITEPARSE_STATUS_INVALID_ARGUMENT && Some(e.message@)
            == form_fields_error(pool@, strings@, all@, offset, count, where_@),
{
    let range = match crate::check::sub(all, offset, count, where_, "form_fields") {
        Ok(v) => v,
        Err(e) => return Err(e),
    };
    assert(range@ == range_of(all@, offset, count));
    let ghost ok = |k: int| form_field_error(pool@, strings@, range@[k], place_of(where_@, "form_fields"@, k as nat)) is None;
    let mut out: Vec<FormField> = Vec::new();
    let mut i: usize = 0;
    while i < range.len()
        invariant
            0 <= i <= range@.len(),
            range@ == range_of(all@, offset, count),
            range_fits(offset, count, all@.len()),
            ok == (|k: int| form_field_error(pool@, strings@, range@[k], place_of(where_@, "form_fields"@, k as nat)) is None),
            forall|k: int| 0 <= k < i ==> #[trigger] ok(k),
            out@.len() == i,
            forall|k: int| 0 <= k < i ==> form_field_matches(#[trigger] out@[k], pool@, strings@, range@[k]),
        decreases range@.len() - i,
    {
        proof {
            lemma_first_bad(ok, range@.len() as int);
        }
        let what = place(where_, "form_fields", i);
        match copy_form_field_at(pool, strings, &range[i], what.as_str()) {
            Ok(a) => out.push(a),
            Err(e) => {
                assert(!ok(i as int));
                assert(first_bad(ok, range@.len() as int) == i);
                return Err(e);
            },
        }
        assert(ok(i as int));
        i = i + 1;
    }
    proof {
        lemma_first_bad(ok, range@.len() as int);
    }
    Ok(out)
}


// Vector graphics.
#[derive(Clone, Copy, Debug, PartialEq, Eq, Structural)]
pub struct LiteParseVectorShape {
    pub bbox: LiteParseRect,
    pub stroke_color: u32,
    pub fill_color: u32,
    pub flags: u32,
}

#[derive(Clone, Copy, Debug, PartialEq, Eq, Structural)]
pub struct LiteParseVectorLine {
    pub x1: u32,
    pub y1: u32,
    pub x2: u32,
    pub y2: u32,
    pub stroke_width: u32,
    pub stroke_color: u32,
    pub fill_color: u32,
    pub flags: u32,
}

pub struct VectorShape {
    pub bbox: LiteParseRect,
    pub stroke: bool,
    pub stroke_color: Option<String>,
    pub fill: bool,
    pub fill_color: Option<String>,
    pub has_curve: bool,
}

pub struct VectorLine {
    pub x1: u32,
    pub y1: u32,
    pub x2: u32,
    pub y2: u32,
    pub stroke: bool,
    pub stroke_width: Option<u32>,
    pub stroke_color: Option<String>,
    pub fill: bool,
    pub fill_color: Option<String>,
}

pub struct VectorGraphics {
    pub shapes: Vec<VectorShape>,
    pub lines: Vec<VectorLine>,
}

pub open spec fn shape_error(sh: LiteParseVectorShape, where_: Seq<char>) -> Option<Seq<char>> {
    if !only_known(sh.flags, VECTOR_FLAGS) {
        Some(label_of(where_, "vector_shapes"@) + ".flags contains unknown bits"@)
    } else if !rect_finite(sh.bbox) {
        Some(label_of(where_, "vector_shapes"@) + " must be finite"@)
    } else {
        None
    }
}

pub open spec fn line_error(l: LiteParseVectorLine, where_: Seq<char>) -> Option<Seq<char>> {
    if !only_known(l.flags, VECTOR_FLAGS) {
        Some(label_of(where_, "vector_lines"@) + ".flags contains unknown bits"@)
    } else if !all_finite(seq![l.x1, l.y1, l.x2, l.y2, l.stroke_width]) {
        Some(label_of(where_, "vector_lines"@) + " must be finite"@)
    } else {
        None
    }
}

pub open spec fn shape_matches(o: VectorShape, sh: LiteParseVectorShape) -> bool {
    &&& o.bbox == sh.bbox
    &&& o.stroke == has_bit(sh.flags, LITEPARSE_VECTOR_FLAG_STROKE)
    &&& opt_view(o.stroke_color) == flagged_hex(sh.flags, LITEPARSE_VECTOR_FLAG_HAS_STROKE_COLOR, sh.stroke_color)
    &&& o.fill == has_bit(sh.flags, LITEPARSE_VECTOR_FLAG_FILL)
    &&& opt_view(o.fill_color) == flagged_hex(sh.flags, LITEPARSE_VECTOR_FLAG_HAS_FILL_COLOR, sh.fill_color)
    &&& o.has_curve == has_bit(sh.flags, LITEPARSE_VECTOR_FLAG_HAS_CURVE)
}

pub open spec fn line_matches(o: VectorLine, l: LiteParseVectorLine) -> bool {
    &&& o.x1 == l.x1 && o.y1 == l.y1 && o.x2 == l.x2 && o.y2 == l.y2
    &&& o.stroke == has_bit(l.flags, LITEPARSE_VECTOR_FLAG_STROKE)
    &&& o.stroke_width == flagged(l.flags, LITEPARSE_VECTOR_FLAG_HAS_STROKE_WIDTH, l.stroke_width)
    &&& opt_view(o.stroke_color) == flagged_hex(l.flags, LITEPARSE_VECTOR_FLAG_HAS_STROKE_COLOR, l.stroke_color)
    &&& o.fill == has_bit(l.flags, LITEPARSE_VECTOR_FLAG_FILL)
    &&& opt_view(o.fill_color) == flagged_hex(l.flags, LITEPARSE_VECTOR_FLAG_HAS_FILL_COLOR, l.fill_color)
}

/// The first failure reading a page's vector shapes and lines: both
/// ranges first, then every shape, then every line.
pub open spec fn vector_error(
    shapes: Seq<LiteParseVectorShape>,
    lines: Seq<LiteParseVectorLine>,
    p: LiteParsePage,
    where_: Seq<char>,
) -> Option<Seq<char>> {
    if !range_fits(p.vector_shape_offset, p.vector_shape_count, shapes.len()) {
        Some(range_message(where_, "vector_shapes"@, p.vector_shape_offset, p.vector_shape_count, shapes.len()))
    } else if !range_fits(p.vector_line_offset, p.vector_line_count, lines.len()) {
        Some(range_message(where_, "vector_lines"@, p.vector_line_offset, p.vector_line_count, lines.len()))
    } else {
        let ss = range_of(shapes, p.vector_shape_offset, p.vector_shape_count);
        let ls = range_of(lines, p.vector_line_offset, p.vector_line_count);
        let i = first_fail(ss, |sh: LiteParseVectorShape| shape_error(sh, where_) is None);
        let j = first_fail(ls, |l: LiteParseVectorLine| line_error(l, where_) is None);
        if i < ss.len() {
            shape_error(ss[i], where_)
        } else if j < ls.len() {
            line_error(ls[j], where_)
        } else {
            None
        }
    }
}

pub open spec fn vector_matches(o: VectorGraphics, shapes: Seq<LiteParseVectorShape>, lines: Seq<LiteParseVectorLine>, p: LiteParsePage) -> bool {
    let ss = range_of(shapes, p.vector_shape_offset, p.vector_shape_count);
    let ls = range_of(lines, p.vector_line_offset, p.vector_line_count);
    &&& o.shapes@.len() == ss.len()
    &&& forall|k: int| 0 <= k < ss.len() ==> shape_matches(#[trigger] o.shapes@[k], ss[k])
    &&& o.lines@.len() == ls.len()
    &&& forall|k: int| 0 <= k < ls.len() ==> line_matches(#[trigger] o.lines@[k], ls[k])
}

fn shape_of(sh: &LiteParseVectorShape) -> (o: VectorShape)
    ensures
        shape_matches(o, *sh),
{
    VectorShape {
        bbox: sh.bbox,
        stroke: sh.flags & LITEPARSE_VECTOR_FLAG_STROKE != 0,
        stroke_color: flag_hex(sh.flags, LITEPARSE_VECTOR_FLAG_HAS_STROKE_COLOR, sh.stroke_color),
        fill: sh.flags & LITEPARSE_VECTOR_FLAG_FILL != 0,
        fill_color: flag_hex(sh.flags, LITEPARSE_VECTOR_FLAG_HAS_FILL_COLOR, sh.fill_color),
        has_curve: sh.flags & LITEPARSE_VECTOR_FLAG_HAS_CURVE != 0,
    }
}

fn line_of(l: &LiteParseVectorLine) -> (o: VectorLine)
    ensures
        line_matches(o, *l),
{
    VectorLine {
        x1: l.x1,
        y1: l.y1,
        x2: l.x2,
        y2: l.y2,
        stroke: l.flags & LITEPARSE_VECTOR_FLAG_STROKE != 0,
        stroke_width: flag_opt(l.flags, LITEPARSE_VECTOR_FLAG_HAS_STROKE_WIDTH, l.stroke_width),
        stroke_color: flag_hex(l.flags, LITEPARSE_VECTOR_FLAG_HAS_STROKE_COLOR, l.stroke_color),
        fill: l.flags & LITEPARSE_VECTOR_FLAG_FILL != 0,
        fill_color: flag_hex(l.flags, LITEPARSE_VECTOR_FLAG_HAS_FILL_COLOR, l.fill_color),
    }
}

fn check_shape(sh: &LiteParseVectorShape, where_: &str) -> (r: FfiResult<()>)
    ensures
        r is Ok <==> shape_error(*sh, where_@) is None,
        r matches Err(e) ==> e.status == LITEPARSE_STATUS_INVALID_ARGUMENT && Some(e.message@)
            == shape_error(*sh, where_@),
{
    match known_flags(sh.flags, VECTOR_FLAGS, where_, "vector_shapes") {
        Ok(()) => {},
        Err(e) => return Err(e),
    }
    finite_rect(&sh.bbox, where_, "vector_shapes")
}

fn check_line(l: &LiteParseVectorLine, where_: &str) -> (r: FfiResult<()>)
    ensures
        r is Ok <==> line_error(*l, where_@) is None,
        r matches Err(e) ==> e.status == LITEPARSE_STATUS_INVALID_ARGUMENT && Some(e.message@)
            == line_error(*l, where_@),
{
    match known_flags(l.flags, VECTOR_FLAGS, where_, "vector_lines") {
        Ok(()) => {},
        Err(e) => return Err(e),
    }
    let values = vec![l.x1, l.y1, l.x2, l.y2, l.stroke_width];
    assert(values@ == seq![l.x1, l.y1, l.x2, l.y2, l.stroke_width]);
    finite(values.as_slice(), where_, "vector_lines")
}

/// Read a page's vector shapes and lines.
pub fn copy_vector_graphics(
    shapes: &[LiteParseVectorShape],
    lines: &[LiteParseVectorLine],
    page: &LiteParsePage,
    where_: &str,
) -> (r: FfiResult<VectorGraphics>)
    ensures
        r is Ok <==> vector_error(shapes@, lines@, *page, where_@) is None,
        r matches Ok(o) ==> vector_matches(o, shapes@, lines@, *page),
        r matches Err(e) ==> e.status == LITEPARSE_STATUS_INVALID_ARGUMENT && Some(e.message@)
            == vector_error(shapes@, lines@, *page, where_@),
{
    let ss = match crate::check::sub(shapes, page.vector_shape_offset, page.vector_shape_count, where_, "vector_shapes") {
        Ok(v) => v,
        Err(e) => return Err(e),
    };
    let ls = match crate::check::sub(lines, page.vector_line_offset, page.vector_line_count, where_, "vector_lines") {
        Ok(v) => v,
        Err(e) => return Err(e),
    };
    assert(ss@ == range_of(shapes@, page.vector_shape_offset, page.vector_shape_count));
    assert(ls@ == range_of(lines@, page.vector_line_offset, page.vector_line_count));
    let ghost sok = |sh: LiteParseVectorShape| shape_error(sh, where_@) is None;
    let ghost lok = |l: LiteParseVectorLine| line_error(l, where_@) is None;
    let mut out_shapes: Vec<VectorShape> = Vec::new();
    let mut i: usize = 0;
    while i < ss.len()
        invariant
            0 <= i <= ss@.len(),
            ss@ == range_of(shapes@, page.vector_shape_offset, page.vector_shape_count),
            ls@ == range_of(lines@, page.vector_line_offset, page.vector_line_count),
            range_fits(page.vector_shape_offset, page.vector_shape_count, shapes@.len()),
            range_fits(page.vector_line_offset, page.vector_line_count, lines@.len()),
            sok == (|sh: LiteParseVectorShape| shape_error(sh, where_@) is None),
            forall|k: int| 0 <= k < i ==> sok(#[trigger] ss@[k]),
            out_shapes@.len() == i,
            forall|k: int| 0 <= k < i ==> shape_matches(#[trigger] out_shapes@[k], ss@[k]),
        decreases ss@.len() - i,
    {
        proof {
            lemma_first_fail(ss@, sok);
        }
        match check_shape(&ss[i], where_) {
            Ok(()) => {},
            Err(e) => {
                assert(first_fail(ss@, sok) == i);
                return Err(e);
            },
        }
        out_shapes.push(shape_of(&ss[i]));
        i = i + 1;
    }
    proof {
        lemma_first_fail(ss@, sok);
    }
    let mut out_lines: Vec<VectorLine> = Vec::new();
    let mut j: usize = 0;
    while j < ls.len()
        invariant
            0 <= j <= ls@.len(),
            ss@ == range_of(shapes@, page.vector_shape_offset, page.vector_shape_count),
            ls@ == range_of(lines@, page.vector_line_offset, page.vector_line_count),
            range_fits(page.vector_shape_offset, page.vector_shape_count, shapes@.len()),
            range_fits(page.vector_line_offset, page.vector_line_count, lines@.len()),
            sok == (|sh: LiteParseVectorShape| shape_error(sh, where_@) is None),
            first_fail(ss@, sok) == ss@.len(),
            out_shapes@.len() == ss@.len(),
            forall|k: int| 0 <= k < ss@.len() ==> shape_matches(#[trigger] out_shapes@[k], ss@[k]),
            lok == (|l: LiteParseVectorLine| line_error(l, where_@) is None),
            forall|k: int| 0 <= k < j ==> lok(#[trigger] ls@[k]),
            out_lines@.len() == j,
            forall|k: int| 0 <= k < j ==> line_matches(#[trigger] out_lines@[k], ls@[k]),
        decreases ls@.len() - j,
    {
        proof {
            lemma_first_fail(ls@, lok);
        }
        match check_line(&ls[j], where_) {
            Ok(()) => {},
            Err(e) => {
                assert(first_fail(ls@, lok) == j);
                return Err(e);
            },
        }
        out_lines.push(line_of(&ls[j]));
        j = j + 1;
    }
    proof {
        lemma_first_fail(ls@, lok);
    }
    Ok(VectorGraphics { shapes: out_shapes, lines: out_lines })
}

// Pages.
/// One page of packed content: its scalars and the ranges of its records
/// in every flat array. Single-precision fields are `f32` bits.
#[derive(Clone, Copy, Debug, PartialEq, Eq, Structural)]
pub struct LiteParsePage {
    pub page_number: u32,
    pub flags: u32,
    pub width: u32,
    pub height: u32,
    pub label: LiteParseStr,
    pub text: LiteParseStr,
    pub markdown: LiteParseStr,
    pub geometry: crate::check::LiteParsePageGeometry,
    pub content_bounds: LiteParseRect,
    pub complexity: crate::records::LiteParsePageComplexity,
    pub item_offset: u32,
    pub item_count: u32,
    pub graphic_offset: u32,
    pub graphic_count: u32,
    pub struct_node_offset: u32,
    pub struct_node_count: u32,
    pub image_ref_offset: u32,
    pub image_ref_count: u32,
    pub annotation_offset: u32,
    pub annotation_count: u32,
    pub form_field_offset: u32,
    pub form_field_count: u32,
    pub structure_node_offset: u32,
    pub structure_node_count: u32,
    pub block_offset: u32,
    pub block_count: u32,
    pub vector_shape_offset: u32,
    pub vector_shape_count: u32,
    pub vector_line_offset: u32,
    pub vector_line_count: u32,
    pub figure_offset: u32,
    pub figure_count: u32,
    pub item_frame_offset: u32,
    pub item_frame_count: u32,
    pub projected_line_offset: u32,
    pub projected_line_count: u32,
    pub region_offset: u32,
    pub region_count: u32,
}


// Structure trees.
/// `LiteParseStructureAttribute.kind` values.
pub const LITEPARSE_STRUCTURE_ATTR_BOOL: u32 = 0;
pub const LITEPARSE_STRUCTURE_ATTR_NUMBER: u32 = 1;
pub const LITEPARSE_STRUCTURE_ATTR_STRING: u32 = 2;

/// One tagged-PDF structure element, flattened in pre-order (parent before
/// children). `parent_index` is an absolute index into the structure-node
/// array, or `LITEPARSE_NO_PARENT` for a root; the ranges index the
/// marked-content ids, the attributes and the annotations.
#[derive(Clone, Copy, Debug, PartialEq, Eq, Structural)]
pub struct LiteParseStructureNode {
    pub element_type: LiteParseStr,
    pub id: LiteParseStr,
    pub actual_text: LiteParseStr,
    pub alt_text: LiteParseStr,
    pub title: LiteParseStr,
    pub parent_index: u32,
    /// Nesting depth, 0 for roots.
    pub depth: u32,
    pub mcid_offset: u32,
    pub mcid_count: u32,
    pub attribute_offset: u32,
    pub attribute_count: u32,
    pub annotation_offset: u32,
    pub annotation_count: u32,
}

/// One `/A` attribute; booleans are `kind == BOOL` with `number` zero or
/// not. `number` is `f32` bits.
#[derive(Clone, Copy, Debug, PartialEq, Eq, Structural)]
pub struct LiteParseStructureAttribute {
    pub name: LiteParseStr,
    pub string: LiteParseStr,
    pub kind: u32,
    pub number: u32,
}

pub enum AttributeValue {
    Boolean(bool),
    Number(u32),
    String(String),
}

/// What one structure element holds besides its children. Attributes are
/// in record order; the core keys them by name, a later one replacing an
/// earlier one of the same name.
pub struct StructureContent {
    pub element_type: String,
    pub id: Option<String>,
    pub actual_text: Option<String>,
    pub alt_text: Option<String>,
    pub title: Option<String>,
    pub attributes: Vec<(String, AttributeValue)>,
    pub marked_content_ids: Vec<i32>,
    pub annotations: Vec<DocumentAnnotation>,
}

/// A page's structure tree: each element's node is the index of its
/// content in `contents`.
pub struct StructureTree {
    pub roots: Vec<crate::structure::StructureElement<u32>>,
    pub contents: Vec<StructureContent>,
}

/// The arrays structure nodes read from.
pub struct StructureArrays<'a> {
    pub pool: &'a [u8],
    pub nodes: &'a [LiteParseStructureNode],
    pub attributes: &'a [LiteParseStructureAttribute],
    pub mcids: &'a [i32],
    pub annotations: &'a [LiteParseAnnotation],
    pub quadpoints: &'a [LiteParseRect],
}

pub open spec fn attribute_error(pool: Seq<u8>, a: LiteParseStructureAttribute, what: Seq<char>) -> Option<Seq<char>> {
    if !str_ok(pool, a.name) {
        Some(str_error(pool, a.name, what, "attributes.name"@))
    } else if a.kind == LITEPARSE_STRUCTURE_ATTR_BOOL || a.kind == LITEPARSE_STRUCTURE_ATTR_NUMBER {
        None
    } else if a.kind == LITEPARSE_STRUCTURE_ATTR_STRING {
        if !str_ok(pool, a.string) {
            Some(str_error(pool, a.string, what, "attributes.string"@))
        } else {
            None
        }
    } else {
        Some(what + ".attributes has unknown kind "@ + decimal(a.kind as nat))
    }
}

pub open spec fn attribute_matches(o: (String, AttributeValue), pool: Seq<u8>, a: LiteParseStructureAttribute) -> bool {
    &&& o.0@ == text_or_empty(pool, a.name)
    &&& if a.kind == LITEPARSE_STRUCTURE_ATTR_BOOL {
        o.1 == AttributeValue::Boolean(!crate::check::f32_zero(a.number))
    } else if a.kind == LITEPARSE_STRUCTURE_ATTR_NUMBER {
        o.1 == AttributeValue::Number(a.number)
    } else {
        o.1 matches AttributeValue::String(t) && t@ == text_or_empty(pool, a.string)
    }
}

fn copy_attribute(pool: &[u8], a: &LiteParseStructureAttribute, what: &str) -> (r: FfiResult<(String, AttributeValue)>)
    ensures
        r is Ok <==> attribute_error(pool@, *a, what@) is None,
        r matches Ok(o) ==> attribute_matches(o, pool@, *a),
        r matches Err(e) ==> e.status == LITEPARSE_STATUS_INVALID_ARGUMENT && Some(e.message@)
            == attribute_error(pool@, *a, what@),
{
    let name = match text_field(pool, a.name, what, "attributes.name") {
        Ok(t) => t,
        Err(e) => return Err(e),
    };
    let value = if a.kind == LITEPARSE_STRUCTURE_ATTR_BOOL {
        AttributeValue::Boolean(!crate::check::is_zero(a.number))
    } else if a.kind == LITEPARSE_STRUCTURE_ATTR_NUMBER {
        AttributeValue::Number(a.number)
    } else if a.kind == LITEPARSE_STRUCTURE_ATTR_STRING {
        match text_field(pool, a.string, what, "attributes.string") {
            Ok(t) => AttributeValue::String(t),
            Err(e) => return Err(e),
        }
    } else {
        let mut message = String::from_str(what);
        message.append(".attributes has unknown kind ");
        push_decimal(&mut message, a.kind as u64);
        return Err(FfiError::invalid_argument(message));
    };
    Ok((name, value))
}

pub open spec fn attributes_error(pool: Seq<u8>, attrs: Seq<LiteParseStructureAttribute>, n: LiteParseStructureNode, what: Seq<char>) -> Option<
    Seq<char>,
> {
    if !range_fits(n.attribute_offset, n.attribute_count, attrs.len()) {
        Some(range_message(what, "attributes"@, n.attribute_offset, n.attribute_count, attrs.len()))
    } else {
        let r = range_of(attrs, n.attribute_offset, n.attribute_count);
        let i = first_fail(r, |a: LiteParseStructureAttribute| attribute_error(pool, a, what) is None);
        if i < r.len() {
            attribute_error(pool, r[i], what)
        } else {
            None
        }
    }
}

fn copy_attributes(pool: &[u8], attrs: &[LiteParseStructureAttribute], n: &LiteParseStructureNode, what: &str) -> (r: FfiResult<
    Vec<(String, AttributeValue)>,
>)
    ensures
        r is Ok <==> attributes_error(pool@, attrs@, *n, what@) is None,
        r matches Ok(v) ==> v@.len() == range_of(attrs@, n.attribute_offset, n.attribute_count).len()
            && forall|k: int|
            0 <= k < v@.len() ==> attribute_matches(
                #[trigger] v@[k],
                pool@,
                range_of(attrs@, n.attribute_offset, n.attribute_count)[k],
            ),
        r matches Err(e) ==> e.status == LITEPARSE_STATUS_INVALID_ARGUMENT && Some(e.message@)
            == attributes_error(pool@, attrs@, *n, what@),
{
    let range = match crate::check::sub(attrs, n.attribute_offset, n.attribute_count, what, "attributes") {
        Ok(v) => v,
        Err(e) => return Err(e),
    };
    assert(range@ == range_of(attrs@, n.attribute_offset, n.attribute_count));
    let ghost ok = |a: LiteParseStructureAttribute| attribute_error(pool@, a, what@) is None;
    let mut out: Vec<(String, AttributeValue)> = Vec::new();
    let mut i: usize = 0;
    while i < range.len()
        invariant
            0 <= i <= range@.len(),
            range@ == range_of(attrs@, n.attribute_offset, n.attribute_count),
            range_fits(n.attribute_offset, n.attribute_count, attrs@.len()),
            ok == (|a: LiteParseStructureAttribute| attribute_error(pool@, a, what@) is None),
            forall|k: int| 0 <= k < i ==> ok(#[trigger] range@[k]),
            out@.len() == i,
            forall|k: int| 0 <= k < i ==> attribute_matches(#[trigger] out@[k], pool@, range@[k]),
        decreases range@.len() - i,
    {
        proof {
            lemma_first_fail(range@, ok);
        }
        match copy_attribute(pool, &range[i], what) {
            Ok(a) => out.push(a),
            Err(e) => {
                assert(first_fail(range@, ok) == i);
                return Err(e);
            },
        }
        i = i + 1;
    }
    proof {
        lemma_first_fail(range@, ok);
    }
    Ok(out)
}

/// Whether the parent of the node at local index `local` of a page whose
/// nodes start at absolute index `start` is a root marker or an earlier
/// node of the same page.
pub open spec fn node_parent_ok(n: LiteParseStructureNode, start: nat, local: nat) -> bool {
    n.parent_index == crate::structure::LITEPARSE_NO_PARENT || (start <= n.parent_index && n.parent_index
        < start + local)
}

/// The first failing check of the structure node at local index `local`.
pub open spec fn node_error(
    pool: Seq<u8>,
    attrs: Seq<LiteParseStructureAttribute>,
    mcids: Seq<i32>,
    anns: Seq<LiteParseAnnotation>,
    quads: Seq<LiteParseRect>,
    n: LiteParseStructureNode,
    start: nat,
    local: nat,
    where_: Seq<char>,
) -> Option<Seq<char>> {
    let what = place_of(where_, "structure_nodes"@, local);
    if !node_parent_ok(n, start, local) {
        Some(what + ".parent_index must name an earlier node of the same page"@)
    } else if attributes_error(pool, attrs, n, what) is Some {
        attributes_error(pool, attrs, n, what)
    } else if !str_ok(pool, n.element_type) {
        Some(str_error(pool, n.element_type, what, "element_type"@))
    } else if !str_ok(pool, n.id) {
        Some(str_error(pool, n.id, what, "id"@))
    } else if !str_ok(pool, n.actual_text) {
        Some(str_error(pool, n.actual_text, what, "actual_text"@))
    } else if !str_ok(pool, n.alt_text) {
        Some(str_error(pool, n.alt_text, what, "alt_text"@))
    } else if !str_ok(pool, n.title) {
        Some(str_error(pool, n.title, what, "title"@))
    } else if !range_fits(n.mcid_offset, n.mcid_count, mcids.len()) {
        Some(range_message(what, "mcids"@, n.mcid_offset, n.mcid_count, mcids.len()))
    } else {
        annotations_error(pool, quads, anns, n.annotation_offset, n.annotation_count, what, "annotations"@)
    }
}

pub open spec fn content_matches(
    o: StructureContent,
    pool: Seq<u8>,
    attrs: Seq<LiteParseStructureAttribute>,
    mcids: Seq<i32>,
    anns: Seq<LiteParseAnnotation>,
    quads: Seq<LiteParseRect>,
    n: LiteParseStructureNode,
) -> bool {
    let ar = range_of(attrs, n.attribute_offset, n.attribute_count);
    let nr = range_of(anns, n.annotation_offset, n.annotation_count);
    &&& o.element_type@ == text_or_empty(pool, n.element_type)
    &&& opt_view(o.id) == str_text(pool, n.id)
    &&& opt_view(o.actual_text) == str_text(pool, n.actual_text)
    &&& opt_view(o.alt_text) == str_text(pool, n.alt_text)
    &&& opt_view(o.title) == str_text(pool, n.title)
    &&& o.attributes@.len() == ar.len()
    &&& forall|k: int| 0 <= k < ar.len() ==> attribute_matches(#[trigger] o.attributes@[k], pool, ar[k])
    &&& o.marked_content_ids@ == range_of(mcids, n.mcid_offset, n.mcid_count)
    &&& o.annotations@.len() == nr.len()
    &&& forall|k: int|
        0 <= k < nr.len() ==> annotation_matches(#[trigger] o.annotations@[k], pool, quads, nr[k])
}

fn copy_structure_content(
    arrays: &StructureArrays,
    n: &LiteParseStructureNode,
    start: usize,
    local: usize,
    where_: &str,
) -> (r: FfiResult<StructureContent>)
    ensures
        r is Ok <==> node_error(
            arrays.pool@,
            arrays.attributes@,
            arrays.mcids@,
            arrays.annotations@,
            arrays.quadpoints@,
            *n,
            start as nat,
            local as nat,
            where_@,
        ) is None,
        r matches Ok(o) ==> content_matches(
            o,
            arrays.pool@,
            arrays.attributes@,
            arrays.mcids@,
            arrays.annotations@,
            arrays.quadpoints@,
            *n,
        ),
        r matches Err(e) ==> e.status == LITEPARSE_STATUS_INVALID_ARGUMENT && Some(e.message@)
            == node_error(
            arrays.pool@,
            arrays.attributes@,
            arrays.mcids@,
            arrays.annotations@,
            arrays.quadpoints@,
            *n,
            start as nat,
            local as nat,
            where_@,
        ),
{
    let pool = arrays.pool;
    let what = place(where_, "structure_nodes", local);
    let parent = n.parent_index;
    if parent != crate::structure::LITEPARSE_NO_PARENT && !(start <= parent as usize && (parent as usize)
        - start < local) {
        let mut message = what.clone();
        message.append(".parent_index must name an earlier node of the same page");
        return Err(FfiError::invalid_argument(message));
    }
    let attributes = match copy_attributes(pool, arrays.attributes, n, what.as_str()) {
        Ok(v) => v,
        Err(e) => return Err(e),
    };
    let element_type = match text_field(pool, n.element_type, what.as_str(), "element_type") {
        Ok(t) => t,
        Err(e) => return Err(e),
    };
    let id = match str_field(pool, n.id, what.as_str(), "id") {
        Ok(t) => t,
        Err(e) => return Err(e),
    };
    let actual_text = match str_field(pool, n.actual_text, what.as_str(), "actual_text") {
        Ok(t) => t,
        Err(e) => return Err(e),
    };
    let alt_text = match str_field(pool, n.alt_text, what.as_str(), "alt_text") {
        Ok(t) => t,
        Err(e) => return Err(e),
    };
    let title = match str_field(pool, n.title, what.as_str(), "title") {
        Ok(t) => t,
        Err(e) => return Err(e),
    };
    let ids = match crate::check::sub(arrays.mcids, n.mcid_offset, n.mcid_count, what.as_str(), "mcids") {
        Ok(v) => v,
        Err(e) => return Err(e),
    };
    let annotations = match copy_annotations(
        pool,
        arrays.quadpoints,
        arrays.annotations,
        n.annotation_offset,
        n.annotation_count,
        what.as_str(),
        "annotations",
    ) {
        Ok(v) => v,
        Err(e) => return Err(e),
    };
    Ok(
        StructureContent {
            element_type,
            id,
            actual_text,
            alt_text,
            title,
            attributes,
            marked_content_ids: copy_i32s(ids),
            annotations,
        },
    )
}


/// The tree records of a page's structure nodes: each names its own local
/// index as its node.
pub open spec fn tree_records(ns: Seq<LiteParseStructureNode>) -> Seq<crate::structure::StructureNodeRecord<u32>> {
    Seq::new(
        ns.len(),
        |k: int|
            crate::structure::StructureNodeRecord {
                node: k as u32,
                parent_index: ns[k].parent_index,
                depth: ns[k].depth,
            },
    )
}

/// The first failure reading `count` structure nodes from `offset`.
pub open spec fn structure_error(
    pool: Seq<u8>,
    nodes: Seq<LiteParseStructureNode>,
    attrs: Seq<LiteParseStructureAttribute>,
    mcids: Seq<i32>,
    anns: Seq<LiteParseAnnotation>,
    quads: Seq<LiteParseRect>,
    offset: u32,
    count: u32,
    where_: Seq<char>,
) -> Option<Seq<char>> {
    if !range_fits(offset, count, nodes.len()) {
        Some(range_message(where_, "structure_nodes"@, offset, count, nodes.len()))
    } else {
        let r = range_of(nodes, offset, count);
        let ok = |k: int| node_error(pool, attrs, mcids, anns, quads, r[k], offset as nat, k as nat, where_) is None;
        let i = first_bad(ok, r.len() as int);
        if i < r.len() {
            node_error(pool, attrs, mcids, anns, quads, r[i], offset as nat, i as nat, where_)
        } else {
            None
        }
    }
}

/// Rebuild a page's structure tree from its pre-order nodes, whose parents
/// are absolute indices: every node is read and checked in order (its
/// parent first), then the children of each node are gathered in record
/// order.
pub fn copy_structure_tree(arrays: &StructureArrays, offset: u32, count: u32, where_: &str) -> (r: FfiResult<
    StructureTree,
>)
    requires
        arrays.nodes@.len() <= u32::MAX,
    ensures
        r is Ok <==> structure_error(
            arrays.pool@,
            arrays.nodes@,
            arrays.attributes@,
            arrays.mcids@,
            arrays.annotations@,
            arrays.quadpoints@,
            offset,
            count,
            where_@,
        ) is None,
        r matches Ok(t) ==> {
            let ns = range_of(arrays.nodes@, offset, count);
            &&& t.contents@.len() == ns.len()
            &&& forall|k: int|
                0 <= k < ns.len() ==> content_matches(
                    #[trigger] t.contents@[k],
                    arrays.pool@,
                    arrays.attributes@,
                    arrays.mcids@,
                    arrays.annotations@,
                    arrays.quadpoints@,
                    ns[k],
                )
            &&& crate::structure::forest_matches(t.roots@, tree_records(ns), offset as nat)
        },
        r matches Err(e) ==> e.status == LITEPARSE_STATUS_INVALID_ARGUMENT && Some(e.message@)
            == structure_error(
            arrays.pool@,
            arrays.nodes@,
            arrays.attributes@,
            arrays.mcids@,
            arrays.annotations@,
            arrays.quadpoints@,
            offset,
            count,
            where_@,
        ),
{
    let nodes = match crate::check::sub(arrays.nodes, offset, count, where_, "structure_nodes") {
        Ok(v) => v,
        Err(e) => return Err(e),
    };
    let ghost ns = range_of(arrays.nodes@, offset, count);
    assert(nodes@ == ns);
    let start = offset as usize;
    let ghost ok = |k: int|
        node_error(
            arrays.pool@,
            arrays.attributes@,
            arrays.mcids@,
            arrays.annotations@,
            arrays.quadpoints@,
            ns[k],
            offset as nat,
            k as nat,
            where_@,
        ) is None;
    let mut contents: Vec<StructureContent> = Vec::new();
    let mut records: Vec<crate::structure::StructureNodeRecord<u32>> = Vec::new();
    let mut local: usize = 0;
    while local < nodes.len()
        invariant
            0 <= local <= nodes@.len(),
            nodes@ == ns,
            ns == range_of(arrays.nodes@, offset, count),
            range_fits(offset, count, arrays.nodes@.len()),
            arrays.nodes@.len() <= u32::MAX,
            start == offset,
            ok == (|k: int|
                node_error(
                    arrays.pool@,
                    arrays.attributes@,
                    arrays.mcids@,
                    arrays.annotations@,
                    arrays.quadpoints@,
                    ns[k],
                    offset as nat,
                    k as nat,
                    where_@,
                ) is None),
            forall|k: int| 0 <= k < local ==> #[trigger] ok(k),
            contents@.len() == local,
            forall|k: int|
                0 <= k < local ==> content_matches(
                    #[trigger] contents@[k],
                    arrays.pool@,
                    arrays.attributes@,
                    arrays.mcids@,
                    arrays.annotations@,
                    arrays.quadpoints@,
                    ns[k],
                ),
            records@ == tree_records(ns).take(local as int),
        decreases nodes@.len() - local,
    {
        proof {
            lemma_first_bad(ok, ns.len() as int);
        }
        match copy_structure_content(arrays, &nodes[local], start, local, where_) {
            Ok(c) => contents.push(c),
            Err(e) => {
                assert(!ok(local as int));
                assert(first_bad(ok, ns.len() as int) == local);
                return Err(e);
            },
        }
        assert(ok(local as int));
        records.push(
            crate::structure::StructureNodeRecord {
                node: local as u32,
                parent_index: nodes[local].parent_index,
                depth: nodes[local].depth,
            },
        );
        local = local + 1;
        assert(records@ =~= tree_records(ns).take(local as int));
    }
    proof {
        lemma_first_bad(ok, ns.len() as int);
        assert(tree_records(ns).take(ns.len() as int) =~= tree_records(ns));
        assert forall|j: int| 0 <= j < records@.len() implies crate::structure::parent_ok(
            records@,
            start as nat,
            j,
        ) by {
            assert(ok(j));
        }
    }
    match crate::structure::rebuild_structure(records.as_slice(), start, where_) {
        Ok(roots) => Ok(StructureTree { roots, contents }),
        Err(e) => Err(e),
    }
}


/// A page as the parsing core holds it.
pub struct Page {
    pub page_number: usize,
    pub page_label: Option<String>,
    pub page_width: u32,
    pub page_height: u32,
    pub content_bounds: Option<LiteParseRect>,
    pub text_items: Vec<TextItem>,
    pub graphics: Vec<GraphicPrimitive>,
    pub vector_graphics: Option<VectorGraphics>,
    pub struct_nodes: Vec<StructNode>,
    pub image_refs: Vec<ImageRef>,
    pub annotations: Option<Vec<DocumentAnnotation>>,
    pub form_fields: Option<Vec<FormField>>,
    pub structure_tree: Option<StructureTree>,
}

/// Every flat array page records read from.
pub struct ContentArrays<'a> {
    pub pool: &'a [u8],
    pub items: &'a [LiteParseTextItem],
    pub words: &'a [LiteParseWordBox],
    pub char_codes: &'a [u32],
    pub graphics: &'a [LiteParseGraphic],
    pub struct_nodes: &'a [LiteParseStructNode],
    pub mcids: &'a [i32],
    pub image_refs: &'a [LiteParseImageRef],
    pub annotations: &'a [LiteParseAnnotation],
    pub quadpoints: &'a [LiteParseRect],
    pub form_fields: &'a [LiteParseFormField],
    pub strings: &'a [LiteParseStr],
    pub structure_nodes: &'a [LiteParseStructureNode],
    pub structure_attributes: &'a [LiteParseStructureAttribute],
    pub vector_shapes: &'a [LiteParseVectorShape],
    pub vector_lines: &'a [LiteParseVectorLine],
}

/// The first failing check of a page's complexity record.
pub open spec fn complexity_error(c: crate::records::LiteParsePageComplexity, where_: Seq<char>) -> Option<Seq<char>> {
    if !only_known(c.flags, crate::records::COMPLEXITY_FLAGS) {
        Some(label_of(where_, "complexity"@) + ".flags contains unknown bits"@)
    } else if !only_known(c.reasons, crate::flags::REASON_MASK) {
        Some(label_of(where_, "complexity.reasons"@) + ".flags contains unknown bits"@)
    } else if !only_known(c.layout_reasons, crate::flags::LAYOUT_REASON_MASK) {
        Some(label_of(where_, "complexity.layout_reasons"@) + ".flags contains unknown bits"@)
    } else if !all_finite(
        seq![
            c.text_coverage,
            c.image_coverage,
            c.largest_image_coverage,
            c.page_area,
            c.uncovered_vector_area,
            c.layout_ruled_table_coverage,
            c.layout_figure_coverage,
        ],
    ) {
        Some(label_of(where_, "complexity"@) + " must be finite"@)
    } else {
        None
    }
}

pub open spec fn size_ok(w: u32, h: u32) -> bool {
    crate::check::f32_finite(w) && crate::check::f32_finite(h) && crate::check::f32_positive(w)
        && crate::check::f32_positive(h)
}

/// The checks a page makes before reading its arrays.
pub open spec fn page_head_error(p: LiteParsePage, where_: Seq<char>) -> Option<Seq<char>> {
    if !only_known(p.flags, PAGE_FLAGS) {
        Some(label_of(where_, ""@) + ".flags contains unknown bits"@)
    } else if has_bit(p.flags, LITEPARSE_PAGE_FLAG_HAS_COMPLEXITY) && complexity_error(p.complexity, where_) is Some {
        complexity_error(p.complexity, where_)
    } else if p.page_number == 0 {
        Some(where_ + ".page_number must be 1-based"@)
    } else if !size_ok(p.width, p.height) {
        Some(where_ + " width and height must be finite and greater than zero"@)
    } else {
        None
    }
}

/// The first failing check of a page record at `where_`, in the order
/// they are made.
pub open spec fn page_error(a: ContentArrays, p: LiteParsePage, where_: Seq<char>) -> Option<Seq<char>> {
    let f = p.flags;
    let items = items_error(a.pool@, a.words@, a.char_codes@, a.items@, p.item_offset, p.item_count, where_);
    let graphics = graphics_error(a.graphics@, p.graphic_offset, p.graphic_count, where_);
    let structs = struct_nodes_error(a.pool@, a.mcids@, a.struct_nodes@, p.struct_node_offset, p.struct_node_count, where_);
    let images = image_refs_error(a.pool@, a.image_refs@, p.image_ref_offset, p.image_ref_count, where_);
    let anns = annotations_error(
        a.pool@,
        a.quadpoints@,
        a.annotations@,
        p.annotation_offset,
        p.annotation_count,
        where_,
        "annotations"@,
    );
    let fields = form_fields_error(a.pool@, a.strings@, a.form_fields@, p.form_field_offset, p.form_field_count, where_);
    let tree = structure_error(
        a.pool@,
        a.structure_nodes@,
        a.structure_attributes@,
        a.mcids@,
        a.annotations@,
        a.quadpoints@,
        p.structure_node_offset,
        p.structure_node_count,
        where_,
    );
    let vectors = vector_error(a.vector_shapes@, a.vector_lines@, p, where_);
    if page_head_error(p, where_) is Some {
        page_head_error(p, where_)
    } else if items is Some {
        items
    } else if graphics is Some {
        graphics
    } else if structs is Some {
        structs
    } else if images is Some {
        images
    } else if has_bit(f, LITEPARSE_PAGE_FLAG_HAS_ANNOTATIONS) && anns is Some {
        anns
    } else if has_bit(f, LITEPARSE_PAGE_FLAG_HAS_FORM_FIELDS) && fields is Some {
        fields
    } else if has_bit(f, LITEPARSE_PAGE_FLAG_HAS_STRUCTURE_TREE) && tree is Some {
        tree
    } else if has_bit(f, LITEPARSE_PAGE_FLAG_HAS_VECTOR_GRAPHICS) && vectors is Some {
        vectors
    } else if has_bit(f, LITEPARSE_PAGE_FLAG_HAS_CONTENT_BOUNDS) && !rect_finite(p.content_bounds) {
        Some(label_of(where_, "content_bounds"@) + " must be finite"@)
    } else if !str_ok(a.pool@, p.label) {
        Some(str_error(a.pool@, p.label, where_, "label"@))
    } else {
        None
    }
}

/// `o` is what page record `p` holds, read from the arrays of `a`.
pub open spec fn page_matches(o: Page, a: ContentArrays, p: LiteParsePage) -> bool {
    let f = p.flags;
    let items = range_of(a.items@, p.item_offset, p.item_count);
    let graphics = range_of(a.graphics@, p.graphic_offset, p.graphic_count);
    let structs = range_of(a.struct_nodes@, p.struct_node_offset, p.struct_node_count);
    let images = range_of(a.image_refs@, p.image_ref_offset, p.image_ref_count);
    let anns = range_of(a.annotations@, p.annotation_offset, p.annotation_count);
    let fields = range_of(a.form_fields@, p.form_field_offset, p.form_field_count);
    let tree_nodes = range_of(a.structure_nodes@, p.structure_node_offset, p.structure_node_count);
    &&& o.page_number == p.page_number
    &&& opt_view(o.page_label) == str_text(a.pool@, p.label)
    &&& o.page_width == p.width && o.page_height == p.height
    &&& o.content_bounds == flagged(f, LITEPARSE_PAGE_FLAG_HAS_CONTENT_BOUNDS, p.content_bounds)
    &&& o.text_items@.len() == items.len()
    &&& forall|k: int|
        0 <= k < items.len() ==> item_matches(#[trigger] o.text_items@[k], a.pool@, a.words@, a.char_codes@, items[k])
    &&& o.graphics@.len() == graphics.len()
    &&& forall|k: int| 0 <= k < graphics.len() ==> graphic_matches(#[trigger] o.graphics@[k], graphics[k])
    &&& o.struct_nodes@.len() == structs.len()
    &&& forall|k: int|
        0 <= k < structs.len() ==> struct_node_matches(#[trigger] o.struct_nodes@[k], a.pool@, a.mcids@, structs[k])
    &&& o.image_refs@.len() == images.len()
    &&& forall|k: int| 0 <= k < images.len() ==> image_ref_matches(#[trigger] o.image_refs@[k], a.pool@, images[k])
    &&& (o.annotations is Some <==> has_bit(f, LITEPARSE_PAGE_FLAG_HAS_ANNOTATIONS))
    &&& (o.annotations matches Some(v) ==> v@.len() == anns.len() && forall|k: int|
        0 <= k < anns.len() ==> annotation_matches(#[trigger] v@[k], a.pool@, a.quadpoints@, anns[k]))
    &&& (o.form_fields is Some <==> has_bit(f, LITEPARSE_PAGE_FLAG_HAS_FORM_FIELDS))
    &&& (o.form_fields matches Some(v) ==> v@.len() == fields.len() && forall|k: int|
        0 <= k < fields.len() ==> form_field_matches(#[trigger] v@[k], a.pool@, a.strings@, fields[k]))
    &&& (o.structure_tree is Some <==> has_bit(f, LITEPARSE_PAGE_FLAG_HAS_STRUCTURE_TREE))
    &&& (o.structure_tree matches Some(t) ==> {
        &&& t.contents@.len() == tree_nodes.len()
        &&& forall|k: int|
            0 <= k < tree_nodes.len() ==> content_matches(
                #[trigger] t.contents@[k],
                a.pool@,
                a.structure_attributes@,
                a.mcids@,
                a.annotations@,
                a.quadpoints@,
                tree_nodes[k],
            )
        &&& crate::structure::forest_matches(t.roots@, tree_records(tree_nodes), p.structure_node_offset as nat)
    })
    &&& (o.vector_graphics is Some <==> has_bit(f, LITEPARSE_PAGE_FLAG_HAS_VECTOR_GRAPHICS))
    &&& (o.vector_graphics matches Some(v) ==> vector_matches(v, a.vector_shapes@, a.vector_lines@, p))
}

fn check_page_head(page: &LiteParsePage, where_: &str) -> (r: FfiResult<()>)
    ensures
        r is Ok <==> page_head_error(*page, where_@) is None,
        r matches Err(e) ==> e.status == LITEPARSE_STATUS_INVALID_ARGUMENT && Some(e.message@)
            == page_head_error(*page, where_@),
{
    match known_flags(page.flags, PAGE_FLAGS, where_, "") {
        Ok(()) => {},
        Err(e) => return Err(e),
    }
    if page.flags & LITEPARSE_PAGE_FLAG_HAS_COMPLEXITY != 0 {
        let c = &page.complexity;
        match known_flags(c.flags, crate::records::COMPLEXITY_FLAGS, where_, "complexity") {
            Ok(()) => {},
            Err(e) => return Err(e),
        }
        match known_flags(c.reasons, crate::flags::REASON_MASK, where_, "complexity.reasons") {
            Ok(()) => {},
            Err(e) => return Err(e),
        }
        match known_flags(
            c.layout_reasons,
            crate::flags::LAYOUT_REASON_MASK,
            where_,
            "complexity.layout_reasons",
        ) {
            Ok(()) => {},
            Err(e) => return Err(e),
        }
        let values = vec![
            c.text_coverage,
            c.image_coverage,
            c.largest_image_coverage,
            c.page_area,
            c.uncovered_vector_area,
            c.layout_ruled_table_coverage,
            c.layout_figure_coverage,
        ];
        assert(values@ == seq![
            c.text_coverage,
            c.image_coverage,
            c.largest_image_coverage,
            c.page_area,
            c.uncovered_vector_area,
            c.layout_ruled_table_coverage,
            c.layout_figure_coverage,
        ]);
        match finite(values.as_slice(), where_, "complexity") {
            Ok(()) => {},
            Err(e) => return Err(e),
        }
    }
    if page.page_number == 0 {
        let mut message = String::from_str(where_);
        message.append(".page_number must be 1-based");
        return Err(FfiError::invalid_argument(message));
    }
    if !crate::check::is_finite(page.width) || !crate::check::is_finite(page.height)
        || !crate::check::is_positive(page.width) || !crate::check::is_positive(page.height) {
        let mut message = String::from_str(where_);
        message.append(" width and height must be finite and greater than zero");
        return Err(FfiError::invalid_argument(message));
    }
    Ok(())
}

/// Read one page record at place `where_`: its checks, then its items,
/// graphics, structure nodes and image references, then the collections
/// its flags say are present, then its bounds and label.
pub fn copy_page(page: &LiteParsePage, where_: &str, arrays: &ContentArrays) -> (r: FfiResult<Page>)
    requires
        arrays.structure_nodes@.len() <= u32::MAX,
    ensures
        r is Ok <==> page_error(*arrays, *page, where_@) is None,
        r matches Ok(o) ==> page_matches(o, *arrays, *page),
        r matches Err(e) ==> e.status == LITEPARSE_STATUS_INVALID_ARGUMENT && Some(e.message@)
            == page_error(*arrays, *page, where_@),
{
    let pool = arrays.pool;
    let f = page.flags;
    match check_page_head(page, where_) {
        Ok(()) => {},
        Err(e) => return Err(e),
    }
    let item_arrays = PageArrays {
        pool,
        items: arrays.items,
        words: arrays.words,
        char_codes: arrays.char_codes,
    };
    let text_items = match copy_items(&item_arrays, arrays.items, page.item_offset, page.item_count, where_) {
        Ok(v) => v,
        Err(e) => return Err(e),
    };
    let graphics = match copy_graphics(arrays.graphics, page.graphic_offset, page.graphic_count, where_) {
        Ok(v) => v,
        Err(e) => return Err(e),
    };
    let struct_nodes = match copy_struct_nodes(
        pool,
        arrays.mcids,
        arrays.struct_nodes,
        page.struct_node_offset,
        page.struct_node_count,
        where_,
    ) {
        Ok(v) => v,
        Err(e) => return Err(e),
    };
    let image_refs = match copy_image_refs(pool, arrays.image_refs, page.image_ref_offset, page.image_ref_count, where_) {
        Ok(v) => v,
        Err(e) => return Err(e),
    };
    let annotations = if f & LITEPARSE_PAGE_FLAG_HAS_ANNOTATIONS != 0 {
        match copy_annotations(
            pool,
            arrays.quadpoints,
            arrays.annotations,
            page.annotation_offset,
            page.annotation_count,
            where_,
            "annotations",
        ) {
            Ok(v) => Some(v),
            Err(e) => return Err(e),
        }
    } else {
        None
    };
    let form_fields = if f & LITEPARSE_PAGE_FLAG_HAS_FORM_FIELDS != 0 {
        match copy_form_fields(
            pool,
            arrays.strings,
            arrays.form_fields,
            page.form_field_offset,
            page.form_field_count,
            where_,
        ) {
            Ok(v) => Some(v),
            Err(e) => return Err(e),
        }
    } else {
        None
    };
    let structure_tree = if f & LITEPARSE_PAGE_FLAG_HAS_STRUCTURE_TREE != 0 {
        let tree_arrays = StructureArrays {
            pool,
            nodes: arrays.structure_nodes,
            attributes: arrays.structure_attributes,
            mcids: arrays.mcids,
            annotations: arrays.annotations,
            quadpoints: arrays.quadpoints,
        };
        match copy_structure_tree(&tree_arrays, page.structure_node_offset, page.structure_node_count, where_) {
            Ok(t) => Some(t),
            Err(e) => return Err(e),
        }
    } else {
        None
    };
    let vector_graphics = if f & LITEPARSE_PAGE_FLAG_HAS_VECTOR_GRAPHICS != 0 {
        match copy_vector_graphics(arrays.vector_shapes, arrays.vector_lines, page, where_) {
            Ok(v) => Some(v),
            Err(e) => return Err(e),
        }
    } else {
        None
    };
    let content_bounds = match flagged_rect(
        f,
        LITEPARSE_PAGE_FLAG_HAS_CONTENT_BOUNDS,
        &page.content_bounds,
        where_,
        "content_bounds",
    ) {
        Ok(v) => v,
        Err(e) => return Err(e),
    };
    let page_label = match str_field(pool, page.label, where_, "label") {
        Ok(v) => v,
        Err(e) => return Err(e),
    };
    Ok(
        Page {
            page_number: page.page_number as usize,
            page_label,
            page_width: page.width,
            page_height: page.height,
            content_bounds,
            text_items,
            graphics,
            vector_graphics,
            struct_nodes,
            image_refs,
            annotations,
            form_fields,
            structure_tree,
        },
    )
}

} // verus!
