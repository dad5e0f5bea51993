//! Packing core pages into the flat record arrays behind a content or
//! result view. Strings are copied into the pool; every other array only
//! grows, so earlier ranges stay valid.
//!
//! What packing does is stated as a step on [`ContentView`], the arrays as
//! sequences: each packing function turns the arrays before it into the
//! arrays its step gives.

use vstd::prelude::*;
use vstd::utf8::encode_utf8;
use crate::check::{LiteParsePageGeometry, LiteParseRect, geometry_or_default, no_geometry};
use crate::color::{argb_of_bytes, optional_color};
use crate::content::{
    LiteParseLayoutBlock, LiteParseLayoutCell, LiteParseLayoutRow, block_kind, kind_code,
    LITEPARSE_BLOCK_FLAG_BOLD, LITEPARSE_BLOCK_FLAG_HAS_BBOX, LITEPARSE_BLOCK_FLAG_HAS_HEADER,
    LITEPARSE_BLOCK_FLAG_HAS_HEADER_ROWS, LITEPARSE_BLOCK_FLAG_HAS_LEVEL,
    LITEPARSE_BLOCK_FLAG_HAS_ORDERED, LITEPARSE_BLOCK_FLAG_ITALIC, LITEPARSE_BLOCK_FLAG_ORDERED,
    LITEPARSE_BLOCK_UNKNOWN, LITEPARSE_CELL_FLAG_HAS_BBOX,
};
use crate::flags::{clamp_u32, packed_len};
use crate::packing::{PackFrom, all_appended, pack_all, start_of};
use crate::page::{
    LiteParseAnnotation, LiteParseFormField, LiteParseGraphic, LiteParseImageRef, LiteParsePage,
    LiteParseStructNode, LiteParseStructureAttribute, LiteParseStructureNode, LiteParseTextItem,
    LiteParseVectorLine, LiteParseVectorShape, LiteParseWordBox, TextItem, WordBox, DocumentAnnotation,
    FormField, GraphicPrimitive, ImageRef, StructNode, LITEPARSE_ANNOTATION_FLAG_HAS_RECT,
    LITEPARSE_FORM_FIELD_FLAG_CHECKED, LITEPARSE_FORM_FIELD_FLAG_HAS_CHECKED,
    LITEPARSE_FORM_FIELD_FLAG_HAS_CONTROL_COUNT, LITEPARSE_FORM_FIELD_FLAG_HAS_CONTROL_INDEX,
    LITEPARSE_FORM_FIELD_FLAG_HAS_OBJECT_NUMBER, LITEPARSE_FORM_FIELD_FLAG_HAS_RECT,
    LITEPARSE_GRAPHIC_FLAG_HAS_FILL_COLOR, LITEPARSE_GRAPHIC_FLAG_HAS_STROKE_COLOR,
    LITEPARSE_GRAPHIC_RECT, LITEPARSE_GRAPHIC_STROKE, LITEPARSE_STRUCT_NODE_FLAG_HAS_BBOX,
    AttributeValue, StructureContent, StructureTree, LITEPARSE_STRUCTURE_ATTR_BOOL,
    LITEPARSE_STRUCTURE_ATTR_NUMBER, LITEPARSE_STRUCTURE_ATTR_STRING, VectorGraphics, VectorLine,
    VectorShape, LITEPARSE_VECTOR_FLAG_FILL, LITEPARSE_VECTOR_FLAG_HAS_CURVE,
    LITEPARSE_VECTOR_FLAG_HAS_FILL_COLOR, LITEPARSE_VECTOR_FLAG_HAS_STROKE_COLOR,
    LITEPARSE_VECTOR_FLAG_HAS_STROKE_WIDTH, LITEPARSE_VECTOR_FLAG_STROKE,
    LITEPARSE_PAGE_FLAG_HAS_ANNOTATIONS, LITEPARSE_PAGE_FLAG_HAS_BLOCKS,
    LITEPARSE_PAGE_FLAG_HAS_COMPLEXITY, LITEPARSE_PAGE_FLAG_HAS_CONTENT_BOUNDS,
    LITEPARSE_PAGE_FLAG_HAS_FORM_FIELDS, LITEPARSE_PAGE_FLAG_HAS_GEOMETRY,
    LITEPARSE_PAGE_FLAG_HAS_ROTATION, LITEPARSE_PAGE_FLAG_HAS_STRUCTURE_TREE,
    LITEPARSE_PAGE_FLAG_HAS_VECTOR_GRAPHICS,
    LITEPARSE_TEXT_ITEM_FLAG_FONT_IS_BUGGY, LITEPARSE_TEXT_ITEM_FLAG_HAS_CONFIDENCE,
    LITEPARSE_TEXT_ITEM_FLAG_HAS_FILL_COLOR, LITEPARSE_TEXT_ITEM_FLAG_HAS_FONT_ASCENT,
    LITEPARSE_TEXT_ITEM_FLAG_HAS_FONT_DESCENT, LITEPARSE_TEXT_ITEM_FLAG_HAS_FONT_FLAGS,
    LITEPARSE_TEXT_ITEM_FLAG_HAS_FONT_HEIGHT, LITEPARSE_TEXT_ITEM_FLAG_HAS_FONT_SIZE,
    LITEPARSE_TEXT_ITEM_FLAG_HAS_FONT_WEIGHT, LITEPARSE_TEXT_ITEM_FLAG_HAS_MCID,
    LITEPARSE_TEXT_ITEM_FLAG_HAS_STROKE_COLOR, LITEPARSE_TEXT_ITEM_FLAG_HAS_TEXT_WIDTH,
    LITEPARSE_TEXT_ITEM_FLAG_STRIKE, LITEPARSE_TEXT_ITEM_FLAG_TRAILING_SPACE_GENERATED,
    LITEPARSE_TEXT_ITEM_FLAG_UNICODE_MAP_ERROR,
};
use crate::pool::{LiteParseStr, Pool};
use crate::projected::{Anchor, anchor_code, anchor_value, append_copies};
use crate::records::{complexity_record, LiteParsePageComplexity, PageComplexityStats, bit_if, clamp, flag_if, opt_bytes, or_zero, push_opt_string, str_at};
use crate::raw_text::zero_rect;
use crate::region::{LiteParseProjectedRegion, PackedRegions, Region};
use crate::structure::{
    StructureNodeRecord, flat_forest, lemma_flat_parents, parent_ok, parents_valid,
    push_structure_roots, LITEPARSE_NO_PARENT,
};

verus! {

/// The record arrays of a content or result view, as sequences.
#[verifier::ext_equal]
pub struct ContentView {
    pub pool: Seq<u8>,
    pub pages: Seq<LiteParsePage>,
    pub items: Seq<LiteParseTextItem>,
    pub words: Seq<LiteParseWordBox>,
    pub char_codes: Seq<u32>,
    pub graphics: Seq<LiteParseGraphic>,
    pub struct_nodes: Seq<LiteParseStructNode>,
    pub mcids: Seq<i32>,
    pub image_refs: Seq<LiteParseImageRef>,
    pub annotations: Seq<LiteParseAnnotation>,
    pub quadpoints: Seq<LiteParseRect>,
    pub form_fields: Seq<LiteParseFormField>,
    pub strings: Seq<LiteParseStr>,
    pub structure_nodes: Seq<LiteParseStructureNode>,
    pub structure_attributes: Seq<LiteParseStructureAttribute>,
    pub blocks: Seq<LiteParseLayoutBlock>,
    pub cells: Seq<LiteParseLayoutCell>,
    pub rows: Seq<LiteParseLayoutRow>,
    pub vector_shapes: Seq<LiteParseVectorShape>,
    pub vector_lines: Seq<LiteParseVectorLine>,
    pub figures: Seq<LiteParseRect>,
    pub item_frames: Seq<LiteParseItemFrame>,
    pub lines: Seq<LiteParseProjectedLine>,
    pub spans: Seq<LiteParseTextItem>,
    pub region_paths: Seq<u16>,
    pub regions: Seq<LiteParseProjectedRegion<LiteParseRect>>,
    pub region_children: Seq<u32>,
}

/// The projected and original bounds of one text item.
#[derive(Clone, Copy, Debug, PartialEq, Eq, Structural)]
pub struct LiteParseItemFrame {
    pub projected: LiteParseRect,
    pub original: LiteParseRect,
}

/// One projected line of a result page; `span_offset/count` index the
/// result's spans and `region_path_offset/count` its region paths.
/// Single-precision fields are `f32` bits.
#[derive(Clone, Copy, Debug, PartialEq, Eq, Structural)]
pub struct LiteParseProjectedLine {
    pub text: LiteParseStr,
    pub dominant_font_name: LiteParseStr,
    pub bbox: LiteParseRect,
    pub indent_x: u32,
    pub dominant_font_size: u32,
    pub heading_font_size: u32,
    pub mcid: i32,
    pub anchor: u32,
    pub flags: u32,
    pub span_offset: u32,
    pub span_count: u32,
    pub region_path_offset: u32,
    pub region_path_count: u32,
}

/// Every flat array a content or result view references, with the pool
/// behind its strings. Arrays only grow while pages are packed.
pub struct Packed {
    pub pool: Pool,
    pub pages: Vec<LiteParsePage>,
    pub items: Vec<LiteParseTextItem>,
    pub words: Vec<LiteParseWordBox>,
    pub char_codes: Vec<u32>,
    pub graphics: Vec<LiteParseGraphic>,
    pub struct_nodes: Vec<LiteParseStructNode>,
    pub mcids: Vec<i32>,
    pub image_refs: Vec<LiteParseImageRef>,
    pub annotations: Vec<LiteParseAnnotation>,
    pub quadpoints: Vec<LiteParseRect>,
    pub form_fields: Vec<LiteParseFormField>,
    pub strings: Vec<LiteParseStr>,
    pub structure_nodes: Vec<LiteParseStructureNode>,
    pub structure_attributes: Vec<LiteParseStructureAttribute>,
    pub blocks: Vec<LiteParseLayoutBlock>,
    pub cells: Vec<LiteParseLayoutCell>,
    pub rows: Vec<LiteParseLayoutRow>,
    pub vector_shapes: Vec<LiteParseVectorShape>,
    pub vector_lines: Vec<LiteParseVectorLine>,
    pub figures: Vec<LiteParseRect>,
    pub item_frames: Vec<LiteParseItemFrame>,
    pub projected_lines: Vec<LiteParseProjectedLine>,
    pub projected_spans: Vec<LiteParseTextItem>,
    pub region_paths: Vec<u16>,
    pub regions: PackedRegions<LiteParseRect>,
}

impl Packed {
    pub open spec fn view(&self) -> ContentView {
        ContentView {
            pool: self.pool.view(),
            pages: self.pages@,
            items: self.items@,
            words: self.words@,
            char_codes: self.char_codes@,
            graphics: self.graphics@,
            struct_nodes: self.struct_nodes@,
            mcids: self.mcids@,
            image_refs: self.image_refs@,
            annotations: self.annotations@,
            quadpoints: self.quadpoints@,
            form_fields: self.form_fields@,
            strings: self.strings@,
            structure_nodes: self.structure_nodes@,
            structure_attributes: self.structure_attributes@,
            blocks: self.blocks@,
            cells: self.cells@,
            rows: self.rows@,
            vector_shapes: self.vector_shapes@,
            vector_lines: self.vector_lines@,
            figures: self.figures@,
            item_frames: self.item_frames@,
            lines: self.projected_lines@,
            spans: self.projected_spans@,
            region_paths: self.region_paths@,
            regions: self.regions.regions@,
            region_children: self.regions.region_children@,
        }
    }
}

/// Every array of `v` empty.
pub open spec fn empty_content() -> ContentView {
    ContentView {
        pool: Seq::empty(),
        pages: Seq::empty(),
        items: Seq::empty(),
        words: Seq::empty(),
        char_codes: Seq::empty(),
        graphics: Seq::empty(),
        struct_nodes: Seq::empty(),
        mcids: Seq::empty(),
        image_refs: Seq::empty(),
        annotations: Seq::empty(),
        quadpoints: Seq::empty(),
        form_fields: Seq::empty(),
        strings: Seq::empty(),
        structure_nodes: Seq::empty(),
        structure_attributes: Seq::empty(),
        blocks: Seq::empty(),
        cells: Seq::empty(),
        rows: Seq::empty(),
        vector_shapes: Seq::empty(),
        vector_lines: Seq::empty(),
        figures: Seq::empty(),
        item_frames: Seq::empty(),
        lines: Seq::empty(),
        spans: Seq::empty(),
        region_paths: Seq::empty(),
        regions: Seq::empty(),
        region_children: Seq::empty(),
    }
}

/// Whether every array of `v` is addressable by `u32` offsets and counts
/// (region child lists one short of that).
pub open spec fn fits(v: ContentView) -> bool {
    &&& v.pool.len() <= u32::MAX
    &&& v.pages.len() <= u32::MAX
    &&& v.items.len() <= u32::MAX
    &&& v.words.len() <= u32::MAX
    &&& v.char_codes.len() <= u32::MAX
    &&& v.graphics.len() <= u32::MAX
    &&& v.struct_nodes.len() <= u32::MAX
    &&& v.mcids.len() <= u32::MAX
    &&& v.image_refs.len() <= u32::MAX
    &&& v.annotations.len() <= u32::MAX
    &&& v.quadpoints.len() <= u32::MAX
    &&& v.form_fields.len() <= u32::MAX
    &&& v.strings.len() <= u32::MAX
    &&& v.structure_nodes.len() <= u32::MAX
    &&& v.structure_attributes.len() <= u32::MAX
    &&& v.blocks.len() <= u32::MAX
    &&& v.cells.len() <= u32::MAX
    &&& v.rows.len() <= u32::MAX
    &&& v.vector_shapes.len() <= u32::MAX
    &&& v.vector_lines.len() <= u32::MAX
    &&& v.figures.len() <= u32::MAX
    &&& v.item_frames.len() <= u32::MAX
    &&& v.lines.len() <= u32::MAX
    &&& v.spans.len() <= u32::MAX
    &&& v.region_paths.len() <= u32::MAX
    &&& v.regions.len() <= u32::MAX
    &&& v.region_children.len() < u32::MAX
}

/// Whether no array of `v` is longer than the same array of `w`.
pub open spec fn le(v: ContentView, w: ContentView) -> bool {
    &&& v.pool.len() <= w.pool.len()
    &&& v.pages.len() <= w.pages.len()
    &&& v.items.len() <= w.items.len()
    &&& v.words.len() <= w.words.len()
    &&& v.char_codes.len() <= w.char_codes.len()
    &&& v.graphics.len() <= w.graphics.len()
    &&& v.struct_nodes.len() <= w.struct_nodes.len()
    &&& v.mcids.len() <= w.mcids.len()
    &&& v.image_refs.len() <= w.image_refs.len()
    &&& v.annotations.len() <= w.annotations.len()
    &&& v.quadpoints.len() <= w.quadpoints.len()
    &&& v.form_fields.len() <= w.form_fields.len()
    &&& v.strings.len() <= w.strings.len()
    &&& v.structure_nodes.len() <= w.structure_nodes.len()
    &&& v.structure_attributes.len() <= w.structure_attributes.len()
    &&& v.blocks.len() <= w.blocks.len()
    &&& v.cells.len() <= w.cells.len()
    &&& v.rows.len() <= w.rows.len()
    &&& v.vector_shapes.len() <= w.vector_shapes.len()
    &&& v.vector_lines.len() <= w.vector_lines.len()
    &&& v.figures.len() <= w.figures.len()
    &&& v.item_frames.len() <= w.item_frames.len()
    &&& v.lines.len() <= w.lines.len()
    &&& v.spans.len() <= w.spans.len()
    &&& v.region_paths.len() <= w.region_paths.len()
    &&& v.regions.len() <= w.regions.len()
    &&& v.region_children.len() <= w.region_children.len()
}

/// Packing `xs` one after the other with `f`.
pub open spec fn fold<T>(v: ContentView, xs: Seq<T>, f: spec_fn(ContentView, T) -> ContentView) -> ContentView
    decreases xs.len(),
{
    if xs.len() == 0 {
        v
    } else {
        f(fold(v, xs.drop_last(), f), xs.last())
    }
}

/// Whether step `f` never shortens an array.
pub open spec fn grows<T>(f: spec_fn(ContentView, T) -> ContentView) -> bool {
    forall|w: ContentView, x: T| #[trigger] le(w, f(w, x))
}

pub proof fn lemma_fold_next<T>(v: ContentView, xs: Seq<T>, f: spec_fn(ContentView, T) -> ContentView, i: int)
    requires
        0 <= i < xs.len(),
    ensures
        fold(v, xs.take(i + 1), f) == f(fold(v, xs.take(i), f), xs[i]),
{
    assert(xs.take(i + 1).drop_last() =~= xs.take(i));
}

pub proof fn lemma_fold_all<T>(v: ContentView, xs: Seq<T>, f: spec_fn(ContentView, T) -> ContentView)
    ensures
        fold(v, xs.take(xs.len() as int), f) == fold(v, xs, f),
{
    assert(xs.take(xs.len() as int) =~= xs);
}

/// A fold of a growing step passes through shorter arrays than it ends
/// with.
pub proof fn lemma_fold_le<T>(v: ContentView, xs: Seq<T>, f: spec_fn(ContentView, T) -> ContentView, i: int)
    requires
        0 <= i <= xs.len(),
        grows(f),
    ensures
        le(v, fold(v, xs.take(i), f)),
        le(fold(v, xs.take(i), f), fold(v, xs, f)),
    decreases xs.len() - i,
{
    lemma_fold_from(v, xs.take(i), f);
    if i < xs.len() {
        lemma_fold_le(v, xs, f, i + 1);
        lemma_fold_next(v, xs, f, i);
        assert(le(fold(v, xs.take(i), f), f(fold(v, xs.take(i), f), xs[i])));
    } else {
        lemma_fold_all(v, xs, f);
    }
}

pub proof fn lemma_fold_from<T>(v: ContentView, xs: Seq<T>, f: spec_fn(ContentView, T) -> ContentView)
    requires
        grows(f),
    ensures
        le(v, fold(v, xs, f)),
    decreases xs.len(),
{
    if xs.len() > 0 {
        lemma_fold_from(v, xs.drop_last(), f);
        assert(le(fold(v, xs.drop_last(), f), f(fold(v, xs.drop_last(), f), xs.last())));
    }
}

/// The records of `xs` packed through the pool from `start` bytes on.
pub open spec fn pooled<C, V: PackFrom<C>>(start: nat, xs: Seq<C>) -> Seq<V> {
    Seq::new(xs.len(), |i: int| V::packed(start_of::<C, V>(start, xs, i), &xs[i]))
}

/// A core colour as `(packed, present)`: eight hex digits, or absent.
pub open spec fn opt_color(c: Option<String>) -> (u32, bool) {
    match c {
        Some(s) => match argb_of_bytes(encode_utf8(s@)) {
            Some(x) => (x, true),
            None => (0u32, false),
        },
        None => (0u32, false),
    }
}

fn color_of(c: &Option<String>) -> (r: (u32, bool))
    ensures
        r == opt_color(*c),
{
    match c {
        Some(s) => optional_color(Some(s.as_str())),
        None => (0, false),
    }
}

fn value_or<T: Copy>(o: Option<T>, zero: T) -> (r: T)
    ensures
        r == or_zero(o, zero),
{
    match o {
        Some(v) => v,
        None => zero,
    }
}

// Words and text items.
impl PackFrom<WordBox> for LiteParseWordBox {
    open spec fn appended(item: &WordBox) -> Seq<u8> {
        encode_utf8(item.text@)
    }

    open spec fn packed(start: nat, item: &WordBox) -> Self {
        LiteParseWordBox {
            text: str_at(start, Some(item.text)),
            x: item.x,
            y: item.y,
            width: item.width,
            height: item.height,
        }
    }

    fn pack_from(pool: &mut Pool, item: &WordBox) -> (r: Self) {
        LiteParseWordBox {
            text: pool.push(item.text.as_str()),
            x: item.x,
            y: item.y,
            width: item.width,
            height: item.height,
        }
    }
}

pub open spec fn text_item_flags(it: TextItem) -> u32 {
    bit_if(it.font_size is Some, LITEPARSE_TEXT_ITEM_FLAG_HAS_FONT_SIZE) | bit_if(
        it.confidence is Some,
        LITEPARSE_TEXT_ITEM_FLAG_HAS_CONFIDENCE,
    ) | bit_if(it.font_flags is Some, LITEPARSE_TEXT_ITEM_FLAG_HAS_FONT_FLAGS) | bit_if(
        it.font_height is Some,
        LITEPARSE_TEXT_ITEM_FLAG_HAS_FONT_HEIGHT,
    ) | bit_if(it.font_ascent is Some, LITEPARSE_TEXT_ITEM_FLAG_HAS_FONT_ASCENT) | bit_if(
        it.font_descent is Some,
        LITEPARSE_TEXT_ITEM_FLAG_HAS_FONT_DESCENT,
    ) | bit_if(it.font_weight is Some, LITEPARSE_TEXT_ITEM_FLAG_HAS_FONT_WEIGHT) | bit_if(
        it.text_width is Some,
        LITEPARSE_TEXT_ITEM_FLAG_HAS_TEXT_WIDTH,
    ) | bit_if(it.mcid is Some, LITEPARSE_TEXT_ITEM_FLAG_HAS_MCID) | bit_if(
        opt_color(it.fill_color).1,
        LITEPARSE_TEXT_ITEM_FLAG_HAS_FILL_COLOR,
    ) | bit_if(opt_color(it.stroke_color).1, LITEPARSE_TEXT_ITEM_FLAG_HAS_STROKE_COLOR) | bit_if(
        it.strike,
        LITEPARSE_TEXT_ITEM_FLAG_STRIKE,
    ) | bit_if(it.has_unicode_map_error, LITEPARSE_TEXT_ITEM_FLAG_UNICODE_MAP_ERROR) | bit_if(
        it.font_is_buggy,
        LITEPARSE_TEXT_ITEM_FLAG_FONT_IS_BUGGY,
    ) | bit_if(it.trailing_space_generated, LITEPARSE_TEXT_ITEM_FLAG_TRAILING_SPACE_GENERATED)
}

/// The bytes a text item's words add to the pool.
pub open spec fn word_bytes(it: TextItem) -> Seq<u8> {
    all_appended::<WordBox, LiteParseWordBox>(it.words@)
}

/// The arrays after a text item's words, codes and strings are packed
/// (its record is not placed yet).
pub open spec fn item_parts(v: ContentView, it: TextItem) -> ContentView {
    ContentView {
        pool: v.pool + word_bytes(it) + encode_utf8(it.text@) + opt_bytes(it.font_name) + opt_bytes(
            it.link,
        ),
        words: v.words + pooled::<WordBox, LiteParseWordBox>(v.pool.len(), it.words@),
        char_codes: v.char_codes + it.char_codes@,
        ..v
    }
}

/// The record of a text item packed onto arrays `v`.
pub open spec fn item_record(v: ContentView, it: TextItem) -> LiteParseTextItem {
    let text_at = v.pool.len() + word_bytes(it).len();
    let name_at = text_at + encode_utf8(it.text@).len();
    let link_at = name_at + opt_bytes(it.font_name).len();
    LiteParseTextItem {
        text: str_at(text_at, Some(it.text)),
        font_name: str_at(name_at, it.font_name),
        link: str_at(link_at, it.link),
        x: it.x,
        y: it.y,
        width: it.width,
        height: it.height,
        rotation: it.rotation,
        font_size: or_zero(it.font_size, 0u32),
        confidence: or_zero(it.confidence, 0u32),
        font_height: or_zero(it.font_height, 0u32),
        font_ascent: or_zero(it.font_ascent, 0u32),
        font_descent: or_zero(it.font_descent, 0u32),
        text_width: or_zero(it.text_width, 0u32),
        font_flags: or_zero(it.font_flags, 0i32),
        font_weight: or_zero(it.font_weight, 0i32),
        mcid: or_zero(it.mcid, 0i32),
        fill_color: opt_color(it.fill_color).0,
        stroke_color: opt_color(it.stroke_color).0,
        char_code_offset: v.char_codes.len() as u32,
        char_code_count: it.char_codes@.len() as u32,
        word_offset: v.words.len() as u32,
        word_count: it.words@.len() as u32,
        flags: text_item_flags(it),
    }
}

/// Packing one page text item.
pub open spec fn item_step(v: ContentView, it: TextItem) -> ContentView {
    let w = item_parts(v, it);
    ContentView { items: w.items.push(item_record(v, it)), ..w }
}

/// Packing one span of a projected line.
pub open spec fn span_step(v: ContentView, it: TextItem) -> ContentView {
    let w = item_parts(v, it);
    ContentView { spans: w.spans.push(item_record(v, it)), ..w }
}

pub open spec fn item_stepper() -> spec_fn(ContentView, TextItem) -> ContentView {
    |v: ContentView, it: TextItem| item_step(v, it)
}

pub open spec fn span_stepper() -> spec_fn(ContentView, TextItem) -> ContentView {
    |v: ContentView, it: TextItem| span_step(v, it)
}

pub proof fn lemma_item_steps_grow()
    ensures
        grows(item_stepper()),
        grows(span_stepper()),
{
}

impl Packed {
    /// Pack a text item's words, character codes and strings, and return
    /// its record.
    pub fn text_item(&mut self, item: &TextItem) -> (r: LiteParseTextItem)
        requires
            fits(item_parts(old(self).view(), *item)),
        ensures
            final(self).view() == item_parts(old(self).view(), *item),
            r == item_record(old(self).view(), *item),
    {
        let ghost v = self.view();
        let word_offset = packed_len(self.words.len());
        let words: Vec<LiteParseWordBox> = pack_all(&mut self.pool, item.words.as_slice());
        proof {
            assert(words@ =~= pooled::<WordBox, LiteParseWordBox>(v.pool.len(), item.words@));
        }
        append_copies(&mut self.words, words.as_slice());
        let word_count = packed_len(item.words.len());
        let char_code_offset = packed_len(self.char_codes.len());
        append_copies(&mut self.char_codes, item.char_codes.as_slice());
        let char_code_count = packed_len(item.char_codes.len());
        let (fill_color, has_fill_color) = color_of(&item.fill_color);
        let (stroke_color, has_stroke_color) = color_of(&item.stroke_color);
        let flags = flag_if(item.font_size.is_some(), LITEPARSE_TEXT_ITEM_FLAG_HAS_FONT_SIZE) | flag_if(
            item.confidence.is_some(),
            LITEPARSE_TEXT_ITEM_FLAG_HAS_CONFIDENCE,
        ) | flag_if(item.font_flags.is_some(), LITEPARSE_TEXT_ITEM_FLAG_HAS_FONT_FLAGS) | flag_if(
            item.font_height.is_some(),
            LITEPARSE_TEXT_ITEM_FLAG_HAS_FONT_HEIGHT,
        ) | flag_if(item.font_ascent.is_some(), LITEPARSE_TEXT_ITEM_FLAG_HAS_FONT_ASCENT) | flag_if(
            item.font_descent.is_some(),
            LITEPARSE_TEXT_ITEM_FLAG_HAS_FONT_DESCENT,
        ) | flag_if(item.font_weight.is_some(), LITEPARSE_TEXT_ITEM_FLAG_HAS_FONT_WEIGHT) | flag_if(
            item.text_width.is_some(),
            LITEPARSE_TEXT_ITEM_FLAG_HAS_TEXT_WIDTH,
        ) | flag_if(item.mcid.is_some(), LITEPARSE_TEXT_ITEM_FLAG_HAS_MCID) | flag_if(
            has_fill_color,
            LITEPARSE_TEXT_ITEM_FLAG_HAS_FILL_COLOR,
        ) | flag_if(has_stroke_color, LITEPARSE_TEXT_ITEM_FLAG_HAS_STROKE_COLOR) | flag_if(
            item.strike,
            LITEPARSE_TEXT_ITEM_FLAG_STRIKE,
        ) | flag_if(item.has_unicode_map_error, LITEPARSE_TEXT_ITEM_FLAG_UNICODE_MAP_ERROR)
            | flag_if(item.font_is_buggy, LITEPARSE_TEXT_ITEM_FLAG_FONT_IS_BUGGY) | flag_if(
            item.trailing_space_generated,
            LITEPARSE_TEXT_ITEM_FLAG_TRAILING_SPACE_GENERATED,
        );
        let text = self.pool.push(item.text.as_str());
        let font_name = push_opt_string(&mut self.pool, &item.font_name);
        let link = push_opt_string(&mut self.pool, &item.link);
        proof {
            assert(self.pool.view() =~= item_parts(v, *item).pool);
        }
        LiteParseTextItem {
            text,
            font_name,
            link,
            x: item.x,
            y: item.y,
            width: item.width,
            height: item.height,
            rotation: item.rotation,
            font_size: value_or(item.font_size, 0),
            confidence: value_or(item.confidence, 0),
            font_height: value_or(item.font_height, 0),
            font_ascent: value_or(item.font_ascent, 0),
            font_descent: value_or(item.font_descent, 0),
            text_width: value_or(item.text_width, 0),
            font_flags: value_or(item.font_flags, 0),
            font_weight: value_or(item.font_weight, 0),
            mcid: value_or(item.mcid, 0),
            fill_color,
            stroke_color,
            char_code_offset,
            char_code_count,
            word_offset,
            word_count,
            flags,
        }
    }
}

// Graphics.
/// The record of a graphic; `bounds` is a stroke's bounding box as the
/// core computes it (a rect carries its own).
pub open spec fn graphic_record(g: GraphicPrimitive, bounds: LiteParseRect) -> LiteParseGraphic {
    match g {
        GraphicPrimitive::Stroke { x1, y1, x2, y2, color, width } => LiteParseGraphic {
            kind: LITEPARSE_GRAPHIC_STROKE,
            flags: bit_if(opt_color(color).1, LITEPARSE_GRAPHIC_FLAG_HAS_STROKE_COLOR),
            x1,
            y1,
            x2,
            y2,
            line_width: width,
            bbox: bounds,
            fill_color: 0,
            stroke_color: opt_color(color).0,
        },
        GraphicPrimitive::Rect { bbox, fill, stroke } => LiteParseGraphic {
            kind: LITEPARSE_GRAPHIC_RECT,
            flags: bit_if(opt_color(fill).1, LITEPARSE_GRAPHIC_FLAG_HAS_FILL_COLOR) | bit_if(
                opt_color(stroke).1,
                LITEPARSE_GRAPHIC_FLAG_HAS_STROKE_COLOR,
            ),
            x1: 0,
            y1: 0,
            x2: 0,
            y2: 0,
            line_width: 0,
            bbox,
            fill_color: opt_color(fill).0,
            stroke_color: opt_color(stroke).0,
        },
    }
}

/// A graphic primitive with the bounding box the core computes for it.
pub struct PlacedGraphic {
    pub primitive: GraphicPrimitive,
    pub bounds: LiteParseRect,
}

pub fn graphic(g: &GraphicPrimitive, bounds: LiteParseRect) -> (r: LiteParseGraphic)
    ensures
        r == graphic_record(*g, bounds),
{
    match g {
        GraphicPrimitive::Stroke { x1, y1, x2, y2, color, width } => {
            let (stroke_color, has_stroke) = color_of(color);
            LiteParseGraphic {
                kind: LITEPARSE_GRAPHIC_STROKE,
                flags: flag_if(has_stroke, LITEPARSE_GRAPHIC_FLAG_HAS_STROKE_COLOR),
                x1: *x1,
                y1: *y1,
                x2: *x2,
                y2: *y2,
                line_width: *width,
                bbox: bounds,
                fill_color: 0,
                stroke_color,
            }
        },
        GraphicPrimitive::Rect { bbox, fill, stroke } => {
            let (fill_color, has_fill) = color_of(fill);
            let (stroke_color, has_stroke) = color_of(stroke);
            LiteParseGraphic {
                kind: LITEPARSE_GRAPHIC_RECT,
                flags: flag_if(has_fill, LITEPARSE_GRAPHIC_FLAG_HAS_FILL_COLOR) | flag_if(
                    has_stroke,
                    LITEPARSE_GRAPHIC_FLAG_HAS_STROKE_COLOR,
                ),
                x1: 0,
                y1: 0,
                x2: 0,
                y2: 0,
                line_width: 0,
                bbox: *bbox,
                fill_color,
                stroke_color,
            }
        },
    }
}

pub open spec fn graphic_step(v: ContentView, g: PlacedGraphic) -> ContentView {
    ContentView { graphics: v.graphics.push(graphic_record(g.primitive, g.bounds)), ..v }
}

pub open spec fn graphic_stepper() -> spec_fn(ContentView, PlacedGraphic) -> ContentView {
    |v: ContentView, g: PlacedGraphic| graphic_step(v, g)
}

// Tagged-structure nodes of the marked-content tree.
pub open spec fn rect_or_zero(r: Option<LiteParseRect>) -> LiteParseRect {
    or_zero(r, zero_rect())
}

pub open spec fn struct_node_step(v: ContentView, n: StructNode) -> ContentView {
    let role_at = v.pool.len();
    let alt_at = role_at + encode_utf8(n.role@).len();
    ContentView {
        pool: v.pool + encode_utf8(n.role@) + opt_bytes(n.alt_text),
        mcids: v.mcids + n.mcids@,
        struct_nodes: v.struct_nodes.push(
            LiteParseStructNode {
                role: str_at(role_at, Some(n.role)),
                alt_text: str_at(alt_at, n.alt_text),
                bbox: rect_or_zero(n.bbox),
                mcid_offset: v.mcids.len() as u32,
                mcid_count: n.mcids@.len() as u32,
                flags: bit_if(n.bbox is Some, LITEPARSE_STRUCT_NODE_FLAG_HAS_BBOX),
            },
        ),
        ..v
    }
}

pub open spec fn struct_node_stepper() -> spec_fn(ContentView, StructNode) -> ContentView {
    |v: ContentView, n: StructNode| struct_node_step(v, n)
}

fn rect_value(r: Option<LiteParseRect>) -> (o: LiteParseRect)
    ensures
        o == rect_or_zero(r),
{
    match r {
        Some(b) => b,
        None => LiteParseRect { x: 0, y: 0, width: 0, height: 0 },
    }
}

// Image objects.
impl PackFrom<ImageRef> for LiteParseImageRef {
    open spec fn appended(item: &ImageRef) -> Seq<u8> {
        encode_utf8(item.id@) + encode_utf8(item.format@)
    }

    open spec fn packed(start: nat, item: &ImageRef) -> Self {
        LiteParseImageRef {
            id: str_at(start, Some(item.id)),
            format: str_at(start + encode_utf8(item.id@).len(), Some(item.format)),
            bbox: item.bbox,
            obj_index: clamp(item.obj_index),
            pixel_width: item.pixel_width,
            pixel_height: item.pixel_height,
            bits_per_pixel: item.bits_per_pixel,
            colorspace: item.colorspace,
            rotation: item.rotation,
        }
    }

    fn pack_from(pool: &mut Pool, item: &ImageRef) -> (r: Self) {
        let id = pool.push(item.id.as_str());
        let format = pool.push(item.format.as_str());
        proof {
            assert(pool.view() =~= old(pool).view() + (encode_utf8(item.id@) + encode_utf8(item.format@)));
        }
        LiteParseImageRef {
            id,
            format,
            bbox: item.bbox,
            obj_index: clamp_u32(item.obj_index),
            pixel_width: item.pixel_width,
            pixel_height: item.pixel_height,
            bits_per_pixel: item.bits_per_pixel,
            colorspace: item.colorspace,
            rotation: item.rotation,
        }
    }
}

// Annotations.
/// The bytes an annotation's strings add, in the order they are pooled.
pub open spec fn annotation_bytes(a: DocumentAnnotation) -> Seq<u8> {
    encode_utf8(a.subtype@) + opt_bytes(a.contents) + opt_bytes(a.created) + opt_bytes(a.modified)
        + opt_bytes(a.title) + opt_bytes(a.uri)
}

/// The arrays after an annotation's quadpoints and strings are packed.
pub open spec fn annotation_parts(v: ContentView, a: DocumentAnnotation) -> ContentView {
    ContentView {
        pool: v.pool + annotation_bytes(a),
        quadpoints: v.quadpoints + a.quadpoint_rects@,
        ..v
    }
}

/// The record of an annotation packed onto arrays `v`.
pub open spec fn annotation_record(v: ContentView, a: DocumentAnnotation) -> LiteParseAnnotation {
    let p = v.pool.len();
    let c = p + encode_utf8(a.subtype@).len();
    let cr = c + opt_bytes(a.contents).len();
    let m = cr + opt_bytes(a.created).len();
    let t = m + opt_bytes(a.modified).len();
    let u = t + opt_bytes(a.title).len();
    LiteParseAnnotation {
        subtype: str_at(p, Some(a.subtype)),
        contents: str_at(c, a.contents),
        created: str_at(cr, a.created),
        modified: str_at(m, a.modified),
        title: str_at(t, a.title),
        uri: str_at(u, a.uri),
        rect: rect_or_zero(a.rect),
        quadpoint_offset: v.quadpoints.len() as u32,
        quadpoint_count: clamp(a.quadpoint_rects@.len() as usize),
        flags: bit_if(a.rect is Some, LITEPARSE_ANNOTATION_FLAG_HAS_RECT),
    }
}

pub open spec fn annotation_step(v: ContentView, a: DocumentAnnotation) -> ContentView {
    let w = annotation_parts(v, a);
    ContentView { annotations: w.annotations.push(annotation_record(v, a)), ..w }
}

pub open spec fn annotation_stepper() -> spec_fn(ContentView, DocumentAnnotation) -> ContentView {
    |v: ContentView, a: DocumentAnnotation| annotation_step(v, a)
}

// Form fields.
/// The bytes a form field's own strings add, in the order they are pooled.
pub open spec fn field_bytes(f: FormField) -> Seq<u8> {
    encode_utf8(f.id@) + encode_utf8(f.field_type@) + opt_bytes(f.name) + opt_bytes(f.alternate_name)
        + opt_bytes(f.value) + opt_bytes(f.export_value)
}

pub open spec fn form_field_flags(f: FormField) -> u32 {
    bit_if(f.object_number is Some, LITEPARSE_FORM_FIELD_FLAG_HAS_OBJECT_NUMBER) | bit_if(
        f.control_count is Some,
        LITEPARSE_FORM_FIELD_FLAG_HAS_CONTROL_COUNT,
    ) | bit_if(f.control_index is Some, LITEPARSE_FORM_FIELD_FLAG_HAS_CONTROL_INDEX) | bit_if(
        f.checked is Some,
        LITEPARSE_FORM_FIELD_FLAG_HAS_CHECKED,
    ) | bit_if(f.checked == Some(true), LITEPARSE_FORM_FIELD_FLAG_CHECKED) | bit_if(
        f.rect is Some,
        LITEPARSE_FORM_FIELD_FLAG_HAS_RECT,
    )
}

/// The record of a form field whose own strings are pooled from `p` on and
/// whose option lists start at `options_at` and `selected_at`.
pub open spec fn field_record(f: FormField, p: nat, options_at: nat, selected_at: nat) -> LiteParseFormField {
    let ft = p + encode_utf8(f.id@).len();
    let n = ft + encode_utf8(f.field_type@).len();
    let an = n + opt_bytes(f.name).len();
    let va = an + opt_bytes(f.alternate_name).len();
    let ex = va + opt_bytes(f.value).len();
    LiteParseFormField {
        id: str_at(p, Some(f.id)),
        field_type: str_at(ft, Some(f.field_type)),
        name: str_at(n, f.name),
        alternate_name: str_at(an, f.alternate_name),
        value: str_at(va, f.value),
        export_value: str_at(ex, f.export_value),
        rect: rect_or_zero(f.rect),
        page: f.page,
        annotation_index: f.annotation_index,
        widget_index: f.widget_index,
        object_number: or_zero(f.object_number, 0i32),
        field_flags: f.field_flags,
        control_count: or_zero(f.control_count, 0i32),
        control_index: or_zero(f.control_index, 0i32),
        option_offset: options_at as u32,
        option_count: clamp(f.options@.len() as usize),
        selected_option_offset: selected_at as u32,
        selected_option_count: clamp(f.selected_options@.len() as usize),
        flags: form_field_flags(f),
    }
}

/// Packing a form field: its options, then its selected options, then its
/// own strings and record.
pub open spec fn form_field_step(v: ContentView, f: FormField) -> ContentView {
    let ob = all_appended::<String, LiteParseStr>(f.options@);
    let sb = all_appended::<String, LiteParseStr>(f.selected_options@);
    let p1 = v.pool.len() + ob.len();
    let p2 = p1 + sb.len();
    let s1 = v.strings.len() + f.options@.len();
    ContentView {
        pool: v.pool + ob + sb + field_bytes(f),
        strings: v.strings + pooled::<String, LiteParseStr>(v.pool.len(), f.options@) + pooled::<
            String,
            LiteParseStr,
        >(p1, f.selected_options@),
        form_fields: v.form_fields.push(field_record(f, p2, v.strings.len(), s1)),
        ..v
    }
}

pub open spec fn form_field_stepper() -> spec_fn(ContentView, FormField) -> ContentView {
    |v: ContentView, f: FormField| form_field_step(v, f)
}

pub proof fn lemma_page_steps_grow()
    ensures
        grows(graphic_stepper()),
        grows(struct_node_stepper()),
        grows(annotation_stepper()),
        grows(form_field_stepper()),
{
}

impl Packed {
    fn push_struct_node(&mut self, n: &StructNode)
        requires
            fits(struct_node_step(old(self).view(), *n)),
        ensures
            final(self).view() == struct_node_step(old(self).view(), *n),
    {
        let ghost v = self.view();
        let mcid_offset = packed_len(self.mcids.len());
        append_copies(&mut self.mcids, n.mcids.as_slice());
        let mcid_count = packed_len(n.mcids.len());
        let role = self.pool.push(n.role.as_str());
        let alt_text = push_opt_string(&mut self.pool, &n.alt_text);
        self.struct_nodes.push(
            LiteParseStructNode {
                role,
                alt_text,
                bbox: rect_value(n.bbox),
                mcid_offset,
                mcid_count,
                flags: flag_if(n.bbox.is_some(), LITEPARSE_STRUCT_NODE_FLAG_HAS_BBOX),
            },
        );
        proof {
            assert(self.pool.view() =~= struct_node_step(v, *n).pool);
        }
    }

    /// Pack an annotation's quadpoints and strings, and return its record.
    pub fn annotation(&mut self, a: &DocumentAnnotation) -> (r: LiteParseAnnotation)
        requires
            fits(annotation_parts(old(self).view(), *a)),
        ensures
            final(self).view() == annotation_parts(old(self).view(), *a),
            r == annotation_record(old(self).view(), *a),
    {
        let ghost v = self.view();
        let quadpoint_offset = packed_len(self.quadpoints.len());
        append_copies(&mut self.quadpoints, a.quadpoint_rects.as_slice());
        let subtype = self.pool.push(a.subtype.as_str());
        let contents = push_opt_string(&mut self.pool, &a.contents);
        let created = push_opt_string(&mut self.pool, &a.created);
        let modified = push_opt_string(&mut self.pool, &a.modified);
        let title = push_opt_string(&mut self.pool, &a.title);
        let uri = push_opt_string(&mut self.pool, &a.uri);
        proof {
            assert(self.pool.view() =~= annotation_parts(v, *a).pool);
        }
        LiteParseAnnotation {
            subtype,
            contents,
            created,
            modified,
            title,
            uri,
            rect: rect_value(a.rect),
            quadpoint_offset,
            quadpoint_count: clamp_u32(a.quadpoint_rects.len()),
            flags: flag_if(a.rect.is_some(), LITEPARSE_ANNOTATION_FLAG_HAS_RECT),
        }
    }

    fn push_annotation(&mut self, a: &DocumentAnnotation)
        requires
            fits(annotation_step(old(self).view(), *a)),
        ensures
            final(self).view() == annotation_step(old(self).view(), *a),
    {
        let r = self.annotation(a);
        self.annotations.push(r);
    }

    fn push_strings(&mut self, values: &Vec<String>)
        requires
            fits(
                ContentView {
                    pool: old(self).view().pool + all_appended::<String, LiteParseStr>(values@),
                    strings: old(self).view().strings + pooled::<String, LiteParseStr>(
                        old(self).view().pool.len(),
                        values@,
                    ),
                    ..old(self).view()
                },
            ),
        ensures
            final(self).view() == (ContentView {
                pool: old(self).view().pool + all_appended::<String, LiteParseStr>(values@),
                strings: old(self).view().strings + pooled::<String, LiteParseStr>(
                    old(self).view().pool.len(),
                    values@,
                ),
                ..old(self).view()
            }),
    {
        let ghost v = self.view();
        let packed: Vec<LiteParseStr> = pack_all(&mut self.pool, values.as_slice());
        proof {
            assert(packed@ =~= pooled::<String, LiteParseStr>(v.pool.len(), values@));
        }
        append_copies(&mut self.strings, packed.as_slice());
    }

    fn push_form_field(&mut self, f: &FormField)
        requires
            fits(form_field_step(old(self).view(), *f)),
        ensures
            final(self).view() == form_field_step(old(self).view(), *f),
    {
        let ghost v = self.view();
        let option_offset = packed_len(self.strings.len());
        self.push_strings(&f.options);
        let selected_offset = packed_len(self.strings.len());
        self.push_strings(&f.selected_options);
        let id = self.pool.push(f.id.as_str());
        let field_type = self.pool.push(f.field_type.as_str());
        let name = push_opt_string(&mut self.pool, &f.name);
        let alternate_name = push_opt_string(&mut self.pool, &f.alternate_name);
        let value = push_opt_string(&mut self.pool, &f.value);
        let export_value = push_opt_string(&mut self.pool, &f.export_value);
        let checked = match f.checked {
            Some(c) => c,
            None => false,
        };
        let flags = flag_if(f.object_number.is_some(), LITEPARSE_FORM_FIELD_FLAG_HAS_OBJECT_NUMBER)
            | flag_if(f.control_count.is_some(), LITEPARSE_FORM_FIELD_FLAG_HAS_CONTROL_COUNT)
            | flag_if(f.control_index.is_some(), LITEPARSE_FORM_FIELD_FLAG_HAS_CONTROL_INDEX)
            | flag_if(f.checked.is_some(), LITEPARSE_FORM_FIELD_FLAG_HAS_CHECKED) | flag_if(
            checked,
            LITEPARSE_FORM_FIELD_FLAG_CHECKED,
        ) | flag_if(f.rect.is_some(), LITEPARSE_FORM_FIELD_FLAG_HAS_RECT);
        self.form_fields.push(
            LiteParseFormField {
                id,
                field_type,
                name,
                alternate_name,
                value,
                export_value,
                rect: rect_value(f.rect),
                page: f.page,
                annotation_index: f.annotation_index,
                widget_index: f.widget_index,
                object_number: value_or(f.object_number, 0),
                field_flags: f.field_flags,
                control_count: value_or(f.control_count, 0),
                control_index: value_or(f.control_index, 0),
                option_offset,
                option_count: clamp_u32(f.options.len()),
                selected_option_offset: selected_offset,
                selected_option_count: clamp_u32(f.selected_options.len()),
                flags,
            },
        );
        proof {
            assert(self.pool.view() =~= form_field_step(v, *f).pool);
            assert(self.strings@ =~= form_field_step(v, *f).strings);
        }
    }
}

// Structure trees.
/// `1.0` as `f32` bits: the number a true boolean attribute carries.
pub const F32_ONE: u32 = 0x3f80_0000;

/// The bytes an attribute value adds to the pool: a string's text.
pub open spec fn value_bytes(value: AttributeValue) -> Seq<u8> {
    match value {
        AttributeValue::String(s) => encode_utf8(s@),
        _ => Seq::empty(),
    }
}

impl PackFrom<(String, AttributeValue)> for LiteParseStructureAttribute {
    /// A string value is pooled before the name.
    open spec fn appended(item: &(String, AttributeValue)) -> Seq<u8> {
        value_bytes(item.1) + encode_utf8(item.0@)
    }

    open spec fn packed(start: nat, item: &(String, AttributeValue)) -> Self {
        LiteParseStructureAttribute {
            name: str_at(start + value_bytes(item.1).len(), Some(item.0)),
            string: match item.1 {
                AttributeValue::String(s) => str_at(start, Some(s)),
                _ => str_at(start, None),
            },
            kind: match item.1 {
                AttributeValue::Boolean(_) => LITEPARSE_STRUCTURE_ATTR_BOOL,
                AttributeValue::Number(_) => LITEPARSE_STRUCTURE_ATTR_NUMBER,
                AttributeValue::String(_) => LITEPARSE_STRUCTURE_ATTR_STRING,
            },
            number: match item.1 {
                AttributeValue::Boolean(b) => if b {
                    F32_ONE
                } else {
                    0u32
                },
                AttributeValue::Number(n) => n,
                AttributeValue::String(_) => 0u32,
            },
        }
    }

    fn pack_from(pool: &mut Pool, item: &(String, AttributeValue)) -> (r: Self) {
        let (kind, number, string) = match &item.1 {
            AttributeValue::Boolean(b) => (
                LITEPARSE_STRUCTURE_ATTR_BOOL,
                if *b {
                    F32_ONE
                } else {
                    0
                },
                LiteParseStr { offset: 0, len: 0 },
            ),
            AttributeValue::Number(n) => (
                LITEPARSE_STRUCTURE_ATTR_NUMBER,
                *n,
                LiteParseStr { offset: 0, len: 0 },
            ),
            AttributeValue::String(s) => (LITEPARSE_STRUCTURE_ATTR_STRING, 0, pool.push(s.as_str())),
        };
        let name = pool.push(item.0.as_str());
        proof {
            assert(pool.view() =~= old(pool).view() + (value_bytes(item.1) + encode_utf8(item.0@)));
        }
        LiteParseStructureAttribute { name, string, kind, number }
    }
}

/// The bytes an element's own strings add, in the order they are pooled.
pub open spec fn element_bytes(c: StructureContent) -> Seq<u8> {
    encode_utf8(c.element_type@) + opt_bytes(c.id) + opt_bytes(c.actual_text) + opt_bytes(c.alt_text)
        + opt_bytes(c.title)
}

/// The arrays after an element's attributes are packed.
pub open spec fn attrs_step(v: ContentView, c: StructureContent) -> ContentView {
    ContentView {
        pool: v.pool + all_appended::<(String, AttributeValue), LiteParseStructureAttribute>(
            c.attributes@,
        ),
        structure_attributes: v.structure_attributes + pooled::<
            (String, AttributeValue),
            LiteParseStructureAttribute,
        >(v.pool.len(), c.attributes@),
        ..v
    }
}

/// Packing one structure element's content: its attributes, its
/// annotations, its marked-content ids, then its strings and record.
pub open spec fn content_step(v: ContentView, c: StructureContent, parent: u32, depth: u32) -> ContentView {
    let w1 = attrs_step(v, c);
    let w2 = fold(w1, c.annotations@, annotation_stepper());
    let p = w2.pool.len();
    let i = p + encode_utf8(c.element_type@).len();
    let a = i + opt_bytes(c.id).len();
    let al = a + opt_bytes(c.actual_text).len();
    let t = al + opt_bytes(c.alt_text).len();
    ContentView {
        pool: w2.pool + element_bytes(c),
        mcids: w2.mcids + c.marked_content_ids@,
        structure_nodes: w2.structure_nodes.push(
            LiteParseStructureNode {
                element_type: str_at(p, Some(c.element_type)),
                id: str_at(i, c.id),
                actual_text: str_at(a, c.actual_text),
                alt_text: str_at(al, c.alt_text),
                title: str_at(t, c.title),
                parent_index: parent,
                depth,
                mcid_offset: w2.mcids.len() as u32,
                mcid_count: c.marked_content_ids@.len() as u32,
                attribute_offset: v.structure_attributes.len() as u32,
                attribute_count: c.attributes@.len() as u32,
                annotation_offset: w1.annotations.len() as u32,
                annotation_count: c.annotations@.len() as u32,
            },
        ),
        ..w2
    }
}

/// The flattened layout of a tree: its elements in pre-order, parents as
/// indices into this sequence.
pub open spec fn tree_layout(t: StructureTree) -> Seq<StructureNodeRecord<u32>> {
    flat_forest(t.roots@, LITEPARSE_NO_PARENT, 0, 0)
}

/// Every element of `t` names one of its contents.
pub open spec fn tree_well_formed(t: StructureTree) -> bool {
    forall|i: int|
        0 <= i < tree_layout(t).len() ==> (#[trigger] tree_layout(t)[i]).node < t.contents@.len()
}

/// A parent index of the layout placed from absolute index `offset` on.
pub open spec fn shifted(parent: u32, offset: nat) -> u32 {
    if parent == LITEPARSE_NO_PARENT {
        LITEPARSE_NO_PARENT
    } else {
        (parent + offset) as u32
    }
}

pub open spec fn node_stepper(t: StructureTree, offset: nat) -> spec_fn(ContentView, StructureNodeRecord<u32>) -> ContentView {
    |v: ContentView, r: StructureNodeRecord<u32>|
        content_step(v, t.contents@[r.node as int], shifted(r.parent_index, offset), r.depth)
}

/// Packing a structure tree: every element in pre-order, parents as
/// absolute indices into the structure-node array.
pub open spec fn structure_step(v: ContentView, t: StructureTree) -> ContentView {
    fold(v, tree_layout(t), node_stepper(t, v.structure_nodes.len()))
}

pub proof fn lemma_structure_steps_grow(t: StructureTree, offset: nat)
    ensures
        grows(node_stepper(t, offset)),
{
    assert forall|w: ContentView, r: StructureNodeRecord<u32>| #[trigger] le(w, node_stepper(t, offset)(w, r)) by {
        let c = t.contents@[r.node as int];
        let w1 = attrs_step(w, c);
        lemma_fold_from(w1, c.annotations@, annotation_stepper());
    }
}

/// Each element packs exactly one structure node.
proof fn lemma_structure_nodes_len(v: ContentView, t: StructureTree, offset: nat, rs: Seq<StructureNodeRecord<u32>>)
    ensures
        fold(v, rs, node_stepper(t, offset)).structure_nodes.len() == v.structure_nodes.len() + rs.len(),
    decreases rs.len(),
{
    if rs.len() > 0 {
        lemma_structure_nodes_len(v, t, offset, rs.drop_last());
        let w = fold(v, rs.drop_last(), node_stepper(t, offset));
        let r = rs.last();
        let c = t.contents@[r.node as int];
        let w1 = attrs_step(w, c);
        lemma_annotations_keep_nodes(w1, c.annotations@);
    }
}

proof fn lemma_annotations_len(v: ContentView, xs: Seq<DocumentAnnotation>)
    ensures
        fold(v, xs, annotation_stepper()).annotations.len() == v.annotations.len() + xs.len(),
    decreases xs.len(),
{
    if xs.len() > 0 {
        lemma_annotations_len(v, xs.drop_last());
    }
}

proof fn lemma_annotations_keep_nodes(v: ContentView, xs: Seq<DocumentAnnotation>)
    ensures
        fold(v, xs, annotation_stepper()).structure_nodes == v.structure_nodes,
    decreases xs.len(),
{
    if xs.len() > 0 {
        lemma_annotations_keep_nodes(v, xs.drop_last());
    }
}

proof fn lemma_tree_bounds(v: ContentView, t: StructureTree)
    requires
        fits(structure_step(v, t)),
    ensures
        v.structure_nodes.len() + tree_layout(t).len() <= u32::MAX,
        tree_layout(t).len() == crate::structure::forest_size(t.roots@),
        parents_valid(tree_layout(t), 0),
{
    lemma_structure_nodes_len(v, t, v.structure_nodes.len(), tree_layout(t));
    crate::structure::lemma_flat_forest_lengths(t.roots@, LITEPARSE_NO_PARENT, 0, 0);
    lemma_flat_parents(t.roots@, 0);
}

impl Packed {
    fn push_annotations(&mut self, xs: &Vec<DocumentAnnotation>)
        requires
            fits(fold(old(self).view(), xs@, annotation_stepper())),
        ensures
            final(self).view() == fold(old(self).view(), xs@, annotation_stepper()),
    {
        let ghost v = self.view();
        let mut i: usize = 0;
        while i < xs.len()
            invariant
                0 <= i <= xs@.len(),
                fits(fold(v, xs@, annotation_stepper())),
                self.view() == fold(v, xs@.take(i as int), annotation_stepper()),
            decreases xs@.len() - i,
        {
            proof {
                lemma_page_steps_grow();
                lemma_fold_le(v, xs@, annotation_stepper(), i + 1);
                lemma_fold_next(v, xs@, annotation_stepper(), i as int);
            }
            self.push_annotation(&xs[i]);
            i = i + 1;
        }
        proof {
            lemma_fold_all(v, xs@, annotation_stepper());
        }
    }

    fn push_structure_content(&mut self, c: &StructureContent, parent: u32, depth: u32)
        requires
            fits(content_step(old(self).view(), *c, parent, depth)),
        ensures
            final(self).view() == content_step(old(self).view(), *c, parent, depth),
    {
        let ghost v = self.view();
        proof {
            lemma_page_steps_grow();
            lemma_fold_from(attrs_step(v, *c), c.annotations@, annotation_stepper());
            lemma_annotations_len(attrs_step(v, *c), c.annotations@);
        }
        let attribute_offset = packed_len(self.structure_attributes.len());
        let attrs: Vec<LiteParseStructureAttribute> = pack_all(&mut self.pool, c.attributes.as_slice());
        proof {
            assert(attrs@ =~= pooled::<(String, AttributeValue), LiteParseStructureAttribute>(
                v.pool.len(),
                c.attributes@,
            ));
        }
        append_copies(&mut self.structure_attributes, attrs.as_slice());
        let attribute_count = packed_len(c.attributes.len());
        assert(self.view() == attrs_step(v, *c));
        let annotation_offset = packed_len(self.annotations.len());
        self.push_annotations(&c.annotations);
        let annotation_count = packed_len(c.annotations.len());
        let ghost w2 = self.view();
        let mcid_offset = packed_len(self.mcids.len());
        append_copies(&mut self.mcids, c.marked_content_ids.as_slice());
        let mcid_count = packed_len(c.marked_content_ids.len());
        let element_type = self.pool.push(c.element_type.as_str());
        let id = push_opt_string(&mut self.pool, &c.id);
        let actual_text = push_opt_string(&mut self.pool, &c.actual_text);
        let alt_text = push_opt_string(&mut self.pool, &c.alt_text);
        let title = push_opt_string(&mut self.pool, &c.title);
        self.structure_nodes.push(
            LiteParseStructureNode {
                element_type,
                id,
                actual_text,
                alt_text,
                title,
                parent_index: parent,
                depth,
                mcid_offset,
                mcid_count,
                attribute_offset,
                attribute_count,
                annotation_offset,
                annotation_count,
            },
        );
        proof {
            assert(self.pool.view() =~= content_step(v, *c, parent, depth).pool);
        }
    }

    #[verifier::spinoff_prover]
    #[verifier::rlimit(60)]
    fn push_structure_tree(&mut self, t: &StructureTree)
        requires
            tree_well_formed(*t),
            fits(structure_step(old(self).view(), *t)),
        ensures
            final(self).view() == structure_step(old(self).view(), *t),
    {
        let ghost v = self.view();
        let ghost offset = v.structure_nodes.len();
        let ghost f = node_stepper(*t, offset);
        let ghost layout = tree_layout(*t);
        proof {
            lemma_tree_bounds(v, *t);
        }
        let mut recs: Vec<StructureNodeRecord<u32>> = Vec::new();
        push_structure_roots(&mut recs, &t.roots);
        assert(recs@ =~= layout);
        let base = packed_len(self.structure_nodes.len());
        let mut i: usize = 0;
        while i < recs.len()
            invariant
                0 <= i <= recs@.len(),
                recs@ == layout,
                layout == tree_layout(*t),
                tree_well_formed(*t),
                base == offset,
                offset == v.structure_nodes.len(),
                f == node_stepper(*t, offset),
                offset + layout.len() <= u32::MAX,
                parents_valid(layout, 0),
                fits(fold(v, layout, f)),
                self.view() == fold(v, layout.take(i as int), f),
            decreases recs@.len() - i,
        {
            let r = recs[i];
            proof {
                lemma_structure_steps_grow(*t, offset);
                lemma_fold_le(v, layout, f, i + 1);
                lemma_fold_next(v, layout, f, i as int);
                assert(parent_ok(layout, 0, i as int));
                assert(r.node < t.contents@.len());
            }
            let parent = if r.parent_index == LITEPARSE_NO_PARENT {
                LITEPARSE_NO_PARENT
            } else {
                r.parent_index + base
            };
            self.push_structure_content(&t.contents[r.node as usize], parent, r.depth);
            i = i + 1;
        }
        proof {
            lemma_fold_all(v, layout, f);
        }
    }
}

// Layout blocks.
/// A table cell of a layout block.
pub struct LayoutCell {
    pub text: String,
    pub bbox: Option<LiteParseRect>,
    pub colspan: Option<u16>,
    pub rowspan: Option<u16>,
}

/// A classified layout block as the core holds it; `kind` names one of
/// the block kinds.
pub struct LayoutBlock {
    pub kind: String,
    pub text: Option<String>,
    pub marker: Option<String>,
    pub lang: Option<String>,
    pub id: Option<String>,
    pub format: Option<String>,
    pub bbox: Option<LiteParseRect>,
    pub level: Option<u8>,
    pub bold: bool,
    pub italic: bool,
    pub ordered: Option<bool>,
    pub header: Option<Vec<LayoutCell>>,
    pub rows: Option<Vec<Vec<LayoutCell>>>,
    pub lines: Option<Vec<String>>,
    pub header_rows: Option<usize>,
}

impl PackFrom<LayoutCell> for LiteParseLayoutCell {
    open spec fn appended(item: &LayoutCell) -> Seq<u8> {
        encode_utf8(item.text@)
    }

    open spec fn packed(start: nat, item: &LayoutCell) -> Self {
        LiteParseLayoutCell {
            text: str_at(start, Some(item.text)),
            bbox: rect_or_zero(item.bbox),
            colspan: or_zero(item.colspan, 0u16) as u32,
            rowspan: or_zero(item.rowspan, 0u16) as u32,
            flags: bit_if(item.bbox is Some, LITEPARSE_CELL_FLAG_HAS_BBOX),
        }
    }

    fn pack_from(pool: &mut Pool, item: &LayoutCell) -> (r: Self) {
        LiteParseLayoutCell {
            text: pool.push(item.text.as_str()),
            bbox: rect_value(item.bbox),
            colspan: value_or(item.colspan, 0) as u32,
            rowspan: value_or(item.rowspan, 0) as u32,
            flags: flag_if(item.bbox.is_some(), LITEPARSE_CELL_FLAG_HAS_BBOX),
        }
    }
}

pub open spec fn list_or_empty<T>(o: Option<Vec<T>>) -> Seq<T> {
    match o {
        Some(v) => v@,
        None => Seq::empty(),
    }
}

/// Packing cells through the pool.
pub open spec fn cells_step(v: ContentView, cs: Seq<LayoutCell>) -> ContentView {
    ContentView {
        pool: v.pool + all_appended::<LayoutCell, LiteParseLayoutCell>(cs),
        cells: v.cells + pooled::<LayoutCell, LiteParseLayoutCell>(v.pool.len(), cs),
        ..v
    }
}

/// Packing strings through the pool into the string array.
pub open spec fn strings_step(v: ContentView, ss: Seq<String>) -> ContentView {
    ContentView {
        pool: v.pool + all_appended::<String, LiteParseStr>(ss),
        strings: v.strings + pooled::<String, LiteParseStr>(v.pool.len(), ss),
        ..v
    }
}

/// Packing one table row: its cells, then its record.
pub open spec fn row_step(v: ContentView, row: Vec<LayoutCell>) -> ContentView {
    let w = cells_step(v, row@);
    ContentView {
        rows: w.rows.push(
            LiteParseLayoutRow { cell_offset: v.cells.len() as u32, cell_count: row@.len() as u32 },
        ),
        ..w
    }
}

pub open spec fn row_stepper() -> spec_fn(ContentView, Vec<LayoutCell>) -> ContentView {
    |v: ContentView, row: Vec<LayoutCell>| row_step(v, row)
}

pub open spec fn block_flags(b: LayoutBlock) -> u32 {
    bit_if(b.level is Some, LITEPARSE_BLOCK_FLAG_HAS_LEVEL) | bit_if(b.bold, LITEPARSE_BLOCK_FLAG_BOLD)
        | bit_if(b.italic, LITEPARSE_BLOCK_FLAG_ITALIC) | bit_if(
        b.ordered is Some,
        LITEPARSE_BLOCK_FLAG_HAS_ORDERED,
    ) | bit_if(b.ordered == Some(true), LITEPARSE_BLOCK_FLAG_ORDERED) | bit_if(
        b.bbox is Some,
        LITEPARSE_BLOCK_FLAG_HAS_BBOX,
    ) | bit_if(b.header_rows is Some, LITEPARSE_BLOCK_FLAG_HAS_HEADER_ROWS) | bit_if(
        b.header is Some,
        LITEPARSE_BLOCK_FLAG_HAS_HEADER,
    )
}

/// The bytes a block's own strings add, in the order they are pooled.
pub open spec fn block_bytes(b: LayoutBlock) -> Seq<u8> {
    opt_bytes(b.text) + opt_bytes(b.marker) + opt_bytes(b.lang) + opt_bytes(b.id) + opt_bytes(b.format)
}

/// The arrays after a block's header cells, rows and lines are packed.
pub open spec fn block_parts(v: ContentView, b: LayoutBlock) -> ContentView {
    let w1 = cells_step(v, list_or_empty(b.header));
    let w2 = fold(w1, list_or_empty(b.rows), row_stepper());
    strings_step(w2, list_or_empty(b.lines))
}

/// Packing a block: header cells, rows, lines, then its strings and
/// record.
pub open spec fn block_step(v: ContentView, b: LayoutBlock) -> ContentView {
    let w = block_parts(v, b);
    let p = w.pool.len();
    let m = p + opt_bytes(b.text).len();
    let l = m + opt_bytes(b.marker).len();
    let i = l + opt_bytes(b.lang).len();
    let f = i + opt_bytes(b.id).len();
    ContentView {
        pool: w.pool + block_bytes(b),
        blocks: w.blocks.push(
            LiteParseLayoutBlock {
                text: str_at(p, b.text),
                marker: str_at(m, b.marker),
                lang: str_at(l, b.lang),
                id: str_at(i, b.id),
                format: str_at(f, b.format),
                bbox: rect_or_zero(b.bbox),
                kind: or_zero(kind_code(b.kind@), LITEPARSE_BLOCK_UNKNOWN),
                flags: block_flags(b),
                level: or_zero(b.level, 0u8) as u32,
                line_offset: v.strings.len() as u32,
                line_count: list_or_empty(b.lines).len() as u32,
                header_cell_offset: v.cells.len() as u32,
                header_cell_count: list_or_empty(b.header).len() as u32,
                row_offset: v.rows.len() as u32,
                row_count: list_or_empty(b.rows).len() as u32,
                header_rows: clamp(or_zero(b.header_rows, 0usize)),
            },
        ),
        ..w
    }
}

pub open spec fn block_stepper() -> spec_fn(ContentView, LayoutBlock) -> ContentView {
    |v: ContentView, b: LayoutBlock| block_step(v, b)
}

/// Packing rows adds one row record each, and leaves the strings and
/// blocks alone.
pub proof fn lemma_rows_len(v: ContentView, rs: Seq<Vec<LayoutCell>>)
    ensures
        fold(v, rs, row_stepper()).rows.len() == v.rows.len() + rs.len(),
        fold(v, rs, row_stepper()).strings == v.strings,
        fold(v, rs, row_stepper()).blocks == v.blocks,
    decreases rs.len(),
{
    if rs.len() > 0 {
        lemma_rows_len(v, rs.drop_last());
    }
}

/// A block's parts grow every array and leave the block array alone;
/// rows and lines start where the arrays stood before the block.
proof fn lemma_block_parts(v: ContentView, b: LayoutBlock)
    ensures
        le(v, block_parts(v, b)),
        block_parts(v, b).blocks == v.blocks,
        block_parts(v, b).cells.len() >= v.cells.len() + list_or_empty(b.header).len(),
        block_parts(v, b).rows.len() == v.rows.len() + list_or_empty(b.rows).len(),
        block_parts(v, b).strings.len() == v.strings.len() + list_or_empty(b.lines).len(),
{
    let w1 = cells_step(v, list_or_empty(b.header));
    lemma_block_steps_grow_rows();
    lemma_fold_from(w1, list_or_empty(b.rows), row_stepper());
    lemma_rows_len(w1, list_or_empty(b.rows));
}

proof fn lemma_block_steps_grow_rows()
    ensures
        grows(row_stepper()),
{
}

pub proof fn lemma_block_steps_grow()
    ensures
        grows(row_stepper()),
        grows(block_stepper()),
{
    assert forall|w: ContentView, b: LayoutBlock| #[trigger] le(w, block_stepper()(w, b)) by {
        lemma_block_parts(w, b);
    }
}

fn cells_of(o: &Option<Vec<LayoutCell>>) -> (r: &[LayoutCell])
    ensures
        r@ == list_or_empty(*o),
{
    match o {
        Some(v) => v.as_slice(),
        None => &[],
    }
}

impl Packed {
    fn push_cells(&mut self, cs: &[LayoutCell])
        requires
            fits(cells_step(old(self).view(), cs@)),
        ensures
            final(self).view() == cells_step(old(self).view(), cs@),
    {
        let ghost v = self.view();
        let packed: Vec<LiteParseLayoutCell> = pack_all(&mut self.pool, cs);
        proof {
            assert(packed@ =~= pooled::<LayoutCell, LiteParseLayoutCell>(v.pool.len(), cs@));
        }
        append_copies(&mut self.cells, packed.as_slice());
    }

    fn push_row(&mut self, row: &Vec<LayoutCell>)
        requires
            fits(row_step(old(self).view(), *row)),
        ensures
            final(self).view() == row_step(old(self).view(), *row),
    {
        let cell_offset = packed_len(self.cells.len());
        self.push_cells(row.as_slice());
        let cell_count = packed_len(row.len());
        self.rows.push(LiteParseLayoutRow { cell_offset, cell_count });
    }

    fn push_rows(&mut self, rs: &[Vec<LayoutCell>])
        requires
            fits(fold(old(self).view(), rs@, row_stepper())),
        ensures
            final(self).view() == fold(old(self).view(), rs@, row_stepper()),
    {
        let ghost v = self.view();
        let mut i: usize = 0;
        while i < rs.len()
            invariant
                0 <= i <= rs@.len(),
                fits(fold(v, rs@, row_stepper())),
                self.view() == fold(v, rs@.take(i as int), row_stepper()),
            decreases rs@.len() - i,
        {
            proof {
                lemma_block_steps_grow();
                lemma_fold_le(v, rs@, row_stepper(), i + 1);
                lemma_fold_next(v, rs@, row_stepper(), i as int);
            }
            self.push_row(&rs[i]);
            i = i + 1;
        }
        proof {
            lemma_fold_all(v, rs@, row_stepper());
        }
    }

    fn push_block_parts(&mut self, b: &LayoutBlock)
        requires
            fits(block_parts(old(self).view(), *b)),
        ensures
            final(self).view() == block_parts(old(self).view(), *b),
    {
        let ghost v = self.view();
        let ghost w1 = cells_step(v, list_or_empty(b.header));
        proof {
            lemma_block_steps_grow_rows();
            lemma_fold_from(w1, list_or_empty(b.rows), row_stepper());
        }
        let header = cells_of(&b.header);
        self.push_cells(header);
        let rows: &[Vec<LayoutCell>] = match &b.rows {
            Some(r) => r.as_slice(),
            None => &[],
        };
        assert(rows@ == list_or_empty(b.rows));
        self.push_rows(rows);
        let empty: Vec<String> = Vec::new();
        let lines: &Vec<String> = match &b.lines {
            Some(l) => l,
            None => &empty,
        };
        assert(lines@ =~= list_or_empty(b.lines));
        self.push_strings(lines);
    }

    fn push_block(&mut self, b: &LayoutBlock)
        requires
            fits(block_step(old(self).view(), *b)),
        ensures
            final(self).view() == block_step(old(self).view(), *b),
    {
        let ghost v = self.view();
        proof {
            lemma_block_parts(v, *b);
        }
        let header_cell_offset = packed_len(self.cells.len());
        let row_offset = packed_len(self.rows.len());
        let line_offset = packed_len(self.strings.len());
        self.push_block_parts(b);
        let header_cell_count = packed_len(cells_of(&b.header).len());
        let row_count = match &b.rows {
            Some(r) => packed_len(r.len()),
            None => 0,
        };
        let line_count = match &b.lines {
            Some(l) => packed_len(l.len()),
            None => 0,
        };
        let text = push_opt_string(&mut self.pool, &b.text);
        let marker = push_opt_string(&mut self.pool, &b.marker);
        let lang = push_opt_string(&mut self.pool, &b.lang);
        let id = push_opt_string(&mut self.pool, &b.id);
        let format = push_opt_string(&mut self.pool, &b.format);
        let kind = match block_kind(b.kind.as_str()) {
            Some(k) => k,
            None => LITEPARSE_BLOCK_UNKNOWN,
        };
        let ordered = match b.ordered {
            Some(o) => o,
            None => false,
        };
        let flags = flag_if(b.level.is_some(), LITEPARSE_BLOCK_FLAG_HAS_LEVEL) | flag_if(
            b.bold,
            LITEPARSE_BLOCK_FLAG_BOLD,
        ) | flag_if(b.italic, LITEPARSE_BLOCK_FLAG_ITALIC) | flag_if(
            b.ordered.is_some(),
            LITEPARSE_BLOCK_FLAG_HAS_ORDERED,
        ) | flag_if(ordered, LITEPARSE_BLOCK_FLAG_ORDERED) | flag_if(
            b.bbox.is_some(),
            LITEPARSE_BLOCK_FLAG_HAS_BBOX,
        ) | flag_if(b.header_rows.is_some(), LITEPARSE_BLOCK_FLAG_HAS_HEADER_ROWS) | flag_if(
            b.header.is_some(),
            LITEPARSE_BLOCK_FLAG_HAS_HEADER,
        );
        self.blocks.push(
            LiteParseLayoutBlock {
                text,
                marker,
                lang,
                id,
                format,
                bbox: rect_value(b.bbox),
                kind,
                flags,
                level: value_or(b.level, 0) as u32,
                line_offset,
                line_count,
                header_cell_offset,
                header_cell_count,
                row_offset,
                row_count,
                header_rows: clamp_u32(value_or(b.header_rows, 0)),
            },
        );
        proof {
            assert(self.pool.view() =~= block_step(v, *b).pool);
        }
    }
}

// Vector graphics.
pub open spec fn shape_record(sh: VectorShape) -> LiteParseVectorShape {
    LiteParseVectorShape {
        bbox: sh.bbox,
        stroke_color: opt_color(sh.stroke_color).0,
        fill_color: opt_color(sh.fill_color).0,
        flags: bit_if(sh.stroke, LITEPARSE_VECTOR_FLAG_STROKE) | bit_if(sh.fill, LITEPARSE_VECTOR_FLAG_FILL)
            | bit_if(opt_color(sh.stroke_color).1, LITEPARSE_VECTOR_FLAG_HAS_STROKE_COLOR) | bit_if(
            opt_color(sh.fill_color).1,
            LITEPARSE_VECTOR_FLAG_HAS_FILL_COLOR,
        ) | bit_if(sh.has_curve, LITEPARSE_VECTOR_FLAG_HAS_CURVE),
    }
}

pub open spec fn line_record(l: VectorLine) -> LiteParseVectorLine {
    LiteParseVectorLine {
        x1: l.x1,
        y1: l.y1,
        x2: l.x2,
        y2: l.y2,
        stroke_width: or_zero(l.stroke_width, 0u32),
        stroke_color: opt_color(l.stroke_color).0,
        fill_color: opt_color(l.fill_color).0,
        flags: bit_if(l.stroke, LITEPARSE_VECTOR_FLAG_STROKE) | bit_if(l.fill, LITEPARSE_VECTOR_FLAG_FILL)
            | bit_if(opt_color(l.stroke_color).1, LITEPARSE_VECTOR_FLAG_HAS_STROKE_COLOR) | bit_if(
            opt_color(l.fill_color).1,
            LITEPARSE_VECTOR_FLAG_HAS_FILL_COLOR,
        ) | bit_if(l.stroke_width is Some, LITEPARSE_VECTOR_FLAG_HAS_STROKE_WIDTH),
    }
}

pub fn vector_shape(sh: &VectorShape) -> (r: LiteParseVectorShape)
    ensures
        r == shape_record(*sh),
{
    let (stroke_color, has_stroke_color) = color_of(&sh.stroke_color);
    let (fill_color, has_fill_color) = color_of(&sh.fill_color);
    LiteParseVectorShape {
        bbox: sh.bbox,
        stroke_color,
        fill_color,
        flags: flag_if(sh.stroke, LITEPARSE_VECTOR_FLAG_STROKE) | flag_if(sh.fill, LITEPARSE_VECTOR_FLAG_FILL)
            | flag_if(has_stroke_color, LITEPARSE_VECTOR_FLAG_HAS_STROKE_COLOR) | flag_if(
            has_fill_color,
            LITEPARSE_VECTOR_FLAG_HAS_FILL_COLOR,
        ) | flag_if(sh.has_curve, LITEPARSE_VECTOR_FLAG_HAS_CURVE),
    }
}

pub fn vector_line(l: &VectorLine) -> (r: LiteParseVectorLine)
    ensures
        r == line_record(*l),
{
    let (stroke_color, has_stroke_color) = color_of(&l.stroke_color);
    let (fill_color, has_fill_color) = color_of(&l.fill_color);
    LiteParseVectorLine {
        x1: l.x1,
        y1: l.y1,
        x2: l.x2,
        y2: l.y2,
        stroke_width: value_or(l.stroke_width, 0),
        stroke_color,
        fill_color,
        flags: flag_if(l.stroke, LITEPARSE_VECTOR_FLAG_STROKE) | flag_if(l.fill, LITEPARSE_VECTOR_FLAG_FILL)
            | flag_if(has_stroke_color, LITEPARSE_VECTOR_FLAG_HAS_STROKE_COLOR) | flag_if(
            has_fill_color,
            LITEPARSE_VECTOR_FLAG_HAS_FILL_COLOR,
        ) | flag_if(l.stroke_width.is_some(), LITEPARSE_VECTOR_FLAG_HAS_STROKE_WIDTH),
    }
}

/// Packing a page's vector graphics: every shape, then every line.
pub open spec fn vectors_step(v: ContentView, g: Option<VectorGraphics>) -> ContentView {
    match g {
        Some(vg) => ContentView {
            vector_shapes: v.vector_shapes + vg.shapes@.map_values(|sh: VectorShape| shape_record(sh)),
            vector_lines: v.vector_lines + vg.lines@.map_values(|l: VectorLine| line_record(l)),
            ..v
        },
        None => v,
    }
}

// Result-only arrays.
pub open spec fn frame_record(f: (LiteParseRect, LiteParseRect)) -> LiteParseItemFrame {
    LiteParseItemFrame { projected: f.0, original: f.1 }
}

pub open spec fn frames_step(v: ContentView, fs: Seq<(LiteParseRect, LiteParseRect)>) -> ContentView {
    ContentView {
        item_frames: v.item_frames + fs.map_values(|f: (LiteParseRect, LiteParseRect)| frame_record(f)),
        ..v
    }
}

impl Packed {
    fn push_vectors(&mut self, g: &Option<VectorGraphics>)
        ensures
            final(self).view() == vectors_step(old(self).view(), *g),
    {
        match g {
            Some(vg) => {
                let ghost v = self.view();
                let mut i: usize = 0;
                while i < vg.shapes.len()
                    invariant
                        0 <= i <= vg.shapes@.len(),
                        self.view() == (ContentView {
                            vector_shapes: v.vector_shapes + vg.shapes@.take(i as int).map_values(
                                |sh: VectorShape| shape_record(sh),
                            ),
                            ..v
                        }),
                    decreases vg.shapes@.len() - i,
                {
                    self.vector_shapes.push(vector_shape(&vg.shapes[i]));
                    i = i + 1;
                    proof {
                        assert(self.vector_shapes@ =~= v.vector_shapes + vg.shapes@.take(
                            i as int,
                        ).map_values(|sh: VectorShape| shape_record(sh)));
                    }
                }
                assert(vg.shapes@.take(vg.shapes@.len() as int) =~= vg.shapes@);
                let ghost w = self.view();
                let mut j: usize = 0;
                while j < vg.lines.len()
                    invariant
                        0 <= j <= vg.lines@.len(),
                        self.view() == (ContentView {
                            vector_lines: w.vector_lines + vg.lines@.take(j as int).map_values(
                                |l: VectorLine| line_record(l),
                            ),
                            ..w
                        }),
                    decreases vg.lines@.len() - j,
                {
                    self.vector_lines.push(vector_line(&vg.lines[j]));
                    j = j + 1;
                    proof {
                        assert(self.vector_lines@ =~= w.vector_lines + vg.lines@.take(
                            j as int,
                        ).map_values(|l: VectorLine| line_record(l)));
                    }
                }
                assert(vg.lines@.take(vg.lines@.len() as int) =~= vg.lines@);
            },
            None => {},
        }
    }

    fn push_frames(&mut self, fs: &Vec<(LiteParseRect, LiteParseRect)>)
        ensures
            final(self).view() == frames_step(old(self).view(), fs@),
    {
        let ghost v = self.view();
        let mut i: usize = 0;
        while i < fs.len()
            invariant
                0 <= i <= fs@.len(),
                self.view() == frames_step(v, fs@.take(i as int)),
            decreases fs@.len() - i,
        {
            let (projected, original) = fs[i];
            self.item_frames.push(LiteParseItemFrame { projected, original });
            i = i + 1;
            proof {
                assert(self.item_frames@ =~= frames_step(v, fs@.take(i as int)).item_frames);
            }
        }
        assert(fs@.take(fs@.len() as int) =~= fs@);
    }
}

// Projected lines of a result page.
/// `LiteParseProjectedLine.flags` bits.
pub const LITEPARSE_LINE_FLAG_HAS_HEADING_FONT_SIZE: u32 = 1;
pub const LITEPARSE_LINE_FLAG_HAS_MCID: u32 = 2;
pub const LITEPARSE_LINE_FLAG_ALL_BOLD: u32 = 4;
pub const LITEPARSE_LINE_FLAG_ALL_ITALIC: u32 = 8;
pub const LITEPARSE_LINE_FLAG_ALL_MONO: u32 = 16;
pub const LITEPARSE_LINE_FLAG_ALL_STRIKE: u32 = 32;
pub const LITEPARSE_LINE_FLAG_FONT_SIZE_ESTIMATED: u32 = 64;
pub const LITEPARSE_LINE_FLAG_RTL: u32 = 128;
pub const LITEPARSE_LINE_FLAG_IN_FIGURE: u32 = 256;

/// A projected line as a parsed page holds it; its spans are text items.
pub struct ProjectedTextLine {
    pub text: String,
    pub dominant_font_name: Option<String>,
    pub bbox: LiteParseRect,
    pub indent_x: u32,
    pub dominant_font_size: u32,
    pub heading_font_size: Option<u32>,
    pub mcid: Option<i32>,
    pub anchor: Anchor,
    pub all_bold: bool,
    pub all_italic: bool,
    pub all_mono: bool,
    pub all_strike: bool,
    pub font_size_is_estimated: bool,
    pub rtl: bool,
    pub in_figure: bool,
    pub region_path: Vec<u16>,
    pub spans: Vec<TextItem>,
}

pub open spec fn line_flags(l: ProjectedTextLine) -> u32 {
    bit_if(l.heading_font_size is Some, LITEPARSE_LINE_FLAG_HAS_HEADING_FONT_SIZE) | bit_if(
        l.mcid is Some,
        LITEPARSE_LINE_FLAG_HAS_MCID,
    ) | bit_if(l.all_bold, LITEPARSE_LINE_FLAG_ALL_BOLD) | bit_if(l.all_italic, LITEPARSE_LINE_FLAG_ALL_ITALIC)
        | bit_if(l.all_mono, LITEPARSE_LINE_FLAG_ALL_MONO) | bit_if(
        l.all_strike,
        LITEPARSE_LINE_FLAG_ALL_STRIKE,
    ) | bit_if(l.font_size_is_estimated, LITEPARSE_LINE_FLAG_FONT_SIZE_ESTIMATED) | bit_if(
        l.rtl,
        LITEPARSE_LINE_FLAG_RTL,
    ) | bit_if(l.in_figure, LITEPARSE_LINE_FLAG_IN_FIGURE)
}

/// Packing a projected line: its spans, its region path, then its strings
/// and record.
pub open spec fn line_step(v: ContentView, l: ProjectedTextLine) -> ContentView {
    let w = fold(v, l.spans@, span_stepper());
    let p = w.pool.len();
    ContentView {
        pool: w.pool + encode_utf8(l.text@) + opt_bytes(l.dominant_font_name),
        region_paths: w.region_paths + l.region_path@,
        lines: w.lines.push(
            LiteParseProjectedLine {
                text: str_at(p, Some(l.text)),
                dominant_font_name: str_at(p + encode_utf8(l.text@).len(), l.dominant_font_name),
                bbox: l.bbox,
                indent_x: l.indent_x,
                dominant_font_size: l.dominant_font_size,
                heading_font_size: or_zero(l.heading_font_size, 0u32),
                mcid: or_zero(l.mcid, 0i32),
                anchor: anchor_code(l.anchor),
                flags: line_flags(l),
                span_offset: v.spans.len() as u32,
                span_count: l.spans@.len() as u32,
                region_path_offset: v.region_paths.len() as u32,
                region_path_count: l.region_path@.len() as u32,
            },
        ),
        ..w
    }
}

pub open spec fn line_stepper() -> spec_fn(ContentView, ProjectedTextLine) -> ContentView {
    |v: ContentView, l: ProjectedTextLine| line_step(v, l)
}

proof fn lemma_spans(v: ContentView, xs: Seq<TextItem>)
    ensures
        le(v, fold(v, xs, span_stepper())),
        fold(v, xs, span_stepper()).spans.len() == v.spans.len() + xs.len(),
        fold(v, xs, span_stepper()).region_paths == v.region_paths,
        fold(v, xs, span_stepper()).lines == v.lines,
    decreases xs.len(),
{
    if xs.len() > 0 {
        lemma_spans(v, xs.drop_last());
    }
}

pub proof fn lemma_line_steps_grow()
    ensures
        grows(line_stepper()),
{
    assert forall|w: ContentView, l: ProjectedTextLine| #[trigger] le(w, line_stepper()(w, l)) by {
        lemma_spans(w, l.spans@);
    }
}

// Region trees.
pub open spec fn regions_step(v: ContentView, r: Option<Region<LiteParseRect>>) -> ContentView {
    match r {
        Some(root) => {
            let flat = crate::region::flat_tree(
                root,
                LITEPARSE_NO_PARENT,
                v.regions.len(),
                v.region_children.len(),
            );
            ContentView {
                regions: v.regions + flat.0,
                region_children: v.region_children + flat.1,
                ..v
            }
        },
        None => v,
    }
}

impl Packed {
    fn push_items(&mut self, xs: &Vec<TextItem>)
        requires
            fits(fold(old(self).view(), xs@, item_stepper())),
        ensures
            final(self).view() == fold(old(self).view(), xs@, item_stepper()),
    {
        let ghost v = self.view();
        let mut i: usize = 0;
        while i < xs.len()
            invariant
                0 <= i <= xs@.len(),
                fits(fold(v, xs@, item_stepper())),
                self.view() == fold(v, xs@.take(i as int), item_stepper()),
            decreases xs@.len() - i,
        {
            proof {
                lemma_item_steps_grow();
                lemma_fold_le(v, xs@, item_stepper(), i + 1);
                lemma_fold_next(v, xs@, item_stepper(), i as int);
            }
            let r = self.text_item(&xs[i]);
            self.items.push(r);
            i = i + 1;
        }
        proof {
            lemma_fold_all(v, xs@, item_stepper());
        }
    }

    fn push_spans(&mut self, xs: &Vec<TextItem>)
        requires
            fits(fold(old(self).view(), xs@, span_stepper())),
        ensures
            final(self).view() == fold(old(self).view(), xs@, span_stepper()),
    {
        let ghost v = self.view();
        let mut i: usize = 0;
        while i < xs.len()
            invariant
                0 <= i <= xs@.len(),
                fits(fold(v, xs@, span_stepper())),
                self.view() == fold(v, xs@.take(i as int), span_stepper()),
            decreases xs@.len() - i,
        {
            proof {
                lemma_item_steps_grow();
                lemma_fold_le(v, xs@, span_stepper(), i + 1);
                lemma_fold_next(v, xs@, span_stepper(), i as int);
            }
            let r = self.text_item(&xs[i]);
            self.projected_spans.push(r);
            i = i + 1;
        }
        proof {
            lemma_fold_all(v, xs@, span_stepper());
        }
    }

    fn push_graphics(&mut self, xs: &Vec<PlacedGraphic>)
        ensures
            final(self).view() == fold(old(self).view(), xs@, graphic_stepper()),
    {
        let ghost v = self.view();
        let mut i: usize = 0;
        while i < xs.len()
            invariant
                0 <= i <= xs@.len(),
                self.view() == fold(v, xs@.take(i as int), graphic_stepper()),
            decreases xs@.len() - i,
        {
            proof {
                lemma_fold_next(v, xs@, graphic_stepper(), i as int);
            }
            let g = graphic(&xs[i].primitive, xs[i].bounds);
            self.graphics.push(g);
            i = i + 1;
        }
        proof {
            lemma_fold_all(v, xs@, graphic_stepper());
        }
    }

    fn push_struct_nodes(&mut self, xs: &Vec<StructNode>)
        requires
            fits(fold(old(self).view(), xs@, struct_node_stepper())),
        ensures
            final(self).view() == fold(old(self).view(), xs@, struct_node_stepper()),
    {
        let ghost v = self.view();
        let mut i: usize = 0;
        while i < xs.len()
            invariant
                0 <= i <= xs@.len(),
                fits(fold(v, xs@, struct_node_stepper())),
                self.view() == fold(v, xs@.take(i as int), struct_node_stepper()),
            decreases xs@.len() - i,
        {
            proof {
                lemma_page_steps_grow();
                lemma_fold_le(v, xs@, struct_node_stepper(), i + 1);
                lemma_fold_next(v, xs@, struct_node_stepper(), i as int);
            }
            self.push_struct_node(&xs[i]);
            i = i + 1;
        }
        proof {
            lemma_fold_all(v, xs@, struct_node_stepper());
        }
    }

    fn push_form_fields(&mut self, xs: &Vec<FormField>)
        requires
            fits(fold(old(self).view(), xs@, form_field_stepper())),
        ensures
            final(self).view() == fold(old(self).view(), xs@, form_field_stepper()),
    {
        let ghost v = self.view();
        let mut i: usize = 0;
        while i < xs.len()
            invariant
                0 <= i <= xs@.len(),
                fits(fold(v, xs@, form_field_stepper())),
                self.view() == fold(v, xs@.take(i as int), form_field_stepper()),
            decreases xs@.len() - i,
        {
            proof {
                lemma_page_steps_grow();
                lemma_fold_le(v, xs@, form_field_stepper(), i + 1);
                lemma_fold_next(v, xs@, form_field_stepper(), i as int);
            }
            self.push_form_field(&xs[i]);
            i = i + 1;
        }
        proof {
            lemma_fold_all(v, xs@, form_field_stepper());
        }
    }

    fn push_blocks(&mut self, xs: &Vec<LayoutBlock>)
        requires
            fits(fold(old(self).view(), xs@, block_stepper())),
        ensures
            final(self).view() == fold(old(self).view(), xs@, block_stepper()),
    {
        let ghost v = self.view();
        let mut i: usize = 0;
        while i < xs.len()
            invariant
                0 <= i <= xs@.len(),
                fits(fold(v, xs@, block_stepper())),
                self.view() == fold(v, xs@.take(i as int), block_stepper()),
            decreases xs@.len() - i,
        {
            proof {
                lemma_block_steps_grow();
                lemma_fold_le(v, xs@, block_stepper(), i + 1);
                lemma_fold_next(v, xs@, block_stepper(), i as int);
            }
            self.push_block(&xs[i]);
            i = i + 1;
        }
        proof {
            lemma_fold_all(v, xs@, block_stepper());
        }
    }

    fn push_line(&mut self, l: &ProjectedTextLine)
        requires
            fits(line_step(old(self).view(), *l)),
        ensures
            final(self).view() == line_step(old(self).view(), *l),
    {
        let ghost v = self.view();
        proof {
            lemma_spans(v, l.spans@);
        }
        let span_offset = packed_len(self.projected_spans.len());
        self.push_spans(&l.spans);
        let span_count = packed_len(l.spans.len());
        let region_path_offset = packed_len(self.region_paths.len());
        append_copies(&mut self.region_paths, l.region_path.as_slice());
        let region_path_count = packed_len(l.region_path.len());
        let text = self.pool.push(l.text.as_str());
        let dominant_font_name = push_opt_string(&mut self.pool, &l.dominant_font_name);
        let flags = flag_if(l.heading_font_size.is_some(), LITEPARSE_LINE_FLAG_HAS_HEADING_FONT_SIZE)
            | flag_if(l.mcid.is_some(), LITEPARSE_LINE_FLAG_HAS_MCID) | flag_if(
            l.all_bold,
            LITEPARSE_LINE_FLAG_ALL_BOLD,
        ) | flag_if(l.all_italic, LITEPARSE_LINE_FLAG_ALL_ITALIC) | flag_if(
            l.all_mono,
            LITEPARSE_LINE_FLAG_ALL_MONO,
        ) | flag_if(l.all_strike, LITEPARSE_LINE_FLAG_ALL_STRIKE) | flag_if(
            l.font_size_is_estimated,
            LITEPARSE_LINE_FLAG_FONT_SIZE_ESTIMATED,
        ) | flag_if(l.rtl, LITEPARSE_LINE_FLAG_RTL) | flag_if(l.in_figure, LITEPARSE_LINE_FLAG_IN_FIGURE);
        self.projected_lines.push(
            LiteParseProjectedLine {
                text,
                dominant_font_name,
                bbox: l.bbox,
                indent_x: l.indent_x,
                dominant_font_size: l.dominant_font_size,
                heading_font_size: value_or(l.heading_font_size, 0),
                mcid: value_or(l.mcid, 0),
                anchor: anchor_value(l.anchor),
                flags,
                span_offset,
                span_count,
                region_path_offset,
                region_path_count,
            },
        );
        proof {
            assert(self.pool.view() =~= line_step(v, *l).pool);
        }
    }

    fn push_lines(&mut self, xs: &Vec<ProjectedTextLine>)
        requires
            fits(fold(old(self).view(), xs@, line_stepper())),
        ensures
            final(self).view() == fold(old(self).view(), xs@, line_stepper()),
    {
        let ghost v = self.view();
        let mut i: usize = 0;
        while i < xs.len()
            invariant
                0 <= i <= xs@.len(),
                fits(fold(v, xs@, line_stepper())),
                self.view() == fold(v, xs@.take(i as int), line_stepper()),
            decreases xs@.len() - i,
        {
            proof {
                lemma_line_steps_grow();
                lemma_fold_le(v, xs@, line_stepper(), i + 1);
                lemma_fold_next(v, xs@, line_stepper(), i as int);
            }
            self.push_line(&xs[i]);
            i = i + 1;
        }
        proof {
            lemma_fold_all(v, xs@, line_stepper());
        }
    }

    fn push_regions(&mut self, r: &Option<Region<LiteParseRect>>)
        requires
            fits(regions_step(old(self).view(), *r)),
        ensures
            final(self).view() == regions_step(old(self).view(), *r),
    {
        match r {
            Some(root) => {
                proof {
                    crate::region::lemma_tree_lengths(
                        *root,
                        LITEPARSE_NO_PARENT,
                        self.regions.regions@.len() as nat,
                        self.regions.region_children@.len() as nat,
                    );
                }
                self.regions.region(root, LITEPARSE_NO_PARENT);
            },
            None => {},
        }
    }
}

// Pages.
/// The fields of one page that packing reads, as an extracted or a parsed
/// page holds them. Result-only parts are empty or absent for an
/// extracted page.
pub struct PageParts {
    pub page_number: usize,
    pub page_label: Option<String>,
    pub width: u32,
    pub height: u32,
    pub content_bounds: Option<LiteParseRect>,
    pub text: String,
    pub markdown: String,
    pub text_items: Vec<TextItem>,
    pub graphics: Vec<PlacedGraphic>,
    pub vector_graphics: Option<VectorGraphics>,
    pub struct_nodes: Vec<StructNode>,
    pub image_refs: Vec<ImageRef>,
    pub annotations: Option<Vec<DocumentAnnotation>>,
    pub form_fields: Option<Vec<FormField>>,
    pub structure_tree: Option<StructureTree>,
    pub blocks: Option<Vec<LayoutBlock>>,
    pub complexity: Option<PageComplexityStats>,
    pub figures: Vec<LiteParseRect>,
    pub item_frames: Vec<(LiteParseRect, LiteParseRect)>,
    pub projected_lines: Vec<ProjectedTextLine>,
    pub regions: Option<Region<LiteParseRect>>,
    /// The page box and whether its rotation was reportable.
    pub geometry: Option<(LiteParsePageGeometry, bool)>,
}

/// Whether a page's structure tree, if any, names only contents it has.
pub open spec fn parts_well_formed(p: PageParts) -> bool {
    p.structure_tree matches Some(t) ==> tree_well_formed(t)
}

pub open spec fn images_step(v: ContentView, ms: Seq<ImageRef>) -> ContentView {
    ContentView {
        pool: v.pool + all_appended::<ImageRef, LiteParseImageRef>(ms),
        image_refs: v.image_refs + pooled::<ImageRef, LiteParseImageRef>(v.pool.len(), ms),
        ..v
    }
}

pub open spec fn tree_step(v: ContentView, t: Option<StructureTree>) -> ContentView {
    match t {
        Some(tree) => structure_step(v, tree),
        None => v,
    }
}

/// The arrays after the page-content parts of a page are packed: text
/// items, graphics, tagged nodes, images, annotations, form fields and
/// the structure tree.
pub open spec fn content_parts(v: ContentView, p: PageParts) -> ContentView {
    let v1 = fold(v, p.text_items@, item_stepper());
    let v2 = fold(v1, p.graphics@, graphic_stepper());
    let v3 = fold(v2, p.struct_nodes@, struct_node_stepper());
    let v4 = images_step(v3, p.image_refs@);
    let v5 = fold(v4, list_or_empty(p.annotations), annotation_stepper());
    let v6 = fold(v5, list_or_empty(p.form_fields), form_field_stepper());
    tree_step(v6, p.structure_tree)
}

/// The arrays after the layout and result parts of a page are packed:
/// blocks, vector graphics, figures, item frames, projected lines and the
/// region tree.
pub open spec fn result_parts(v: ContentView, p: PageParts) -> ContentView {
    let v8 = fold(v, list_or_empty(p.blocks), block_stepper());
    let v9 = vectors_step(v8, p.vector_graphics);
    let v10 = ContentView { figures: v9.figures + p.figures@, ..v9 };
    let v11 = frames_step(v10, p.item_frames@);
    let v12 = fold(v11, p.projected_lines@, line_stepper());
    regions_step(v12, p.regions)
}

pub open spec fn page_flags(p: PageParts) -> u32 {
    bit_if(p.geometry is Some, LITEPARSE_PAGE_FLAG_HAS_GEOMETRY) | bit_if(
        p.geometry matches Some(g) && g.1,
        LITEPARSE_PAGE_FLAG_HAS_ROTATION,
    ) | bit_if(p.content_bounds is Some, LITEPARSE_PAGE_FLAG_HAS_CONTENT_BOUNDS) | bit_if(
        p.complexity is Some,
        LITEPARSE_PAGE_FLAG_HAS_COMPLEXITY,
    ) | bit_if(p.annotations is Some, LITEPARSE_PAGE_FLAG_HAS_ANNOTATIONS) | bit_if(
        p.form_fields is Some,
        LITEPARSE_PAGE_FLAG_HAS_FORM_FIELDS,
    ) | bit_if(p.structure_tree is Some, LITEPARSE_PAGE_FLAG_HAS_STRUCTURE_TREE) | bit_if(
        p.blocks is Some,
        LITEPARSE_PAGE_FLAG_HAS_BLOCKS,
    ) | bit_if(p.vector_graphics is Some, LITEPARSE_PAGE_FLAG_HAS_VECTOR_GRAPHICS)
}

pub open spec fn complexity_of(c: Option<PageComplexityStats>) -> LiteParsePageComplexity {
    match c {
        Some(s) => complexity_record(s),
        None => zero_complexity(),
    }
}

pub open spec fn zero_complexity() -> LiteParsePageComplexity {
    LiteParsePageComplexity {
        page_number: 0,
        flags: 0,
        text_length: 0,
        image_block_count: 0,
        text_coverage: 0,
        image_coverage: 0,
        largest_image_coverage: 0,
        page_area: 0,
        uncovered_vector_area: 0,
        reasons: 0,
        layout_column_count: 0,
        layout_ruled_table_count: 0,
        layout_text_table_run_count: 0,
        layout_figure_count: 0,
        layout_ruled_table_coverage: 0,
        layout_figure_coverage: 0,
        layout_reasons: 0,
    }
}

/// The number of entries an array gained between two views.
pub open spec fn gained<T>(before: Seq<T>, after: Seq<T>) -> u32 {
    (after.len() - before.len()) as u32
}

/// The record of a page packed onto arrays `v`: every range spans what its
/// part appended to its array (annotations: the page's own, before any
/// structure element's), and the label, text and Markdown are pooled
/// last.
#[verifier::opaque]
pub open spec fn page_record(v: ContentView, p: PageParts) -> LiteParsePage {
    let v1 = fold(v, p.text_items@, item_stepper());
    let v2 = fold(v1, p.graphics@, graphic_stepper());
    let v3 = fold(v2, p.struct_nodes@, struct_node_stepper());
    let v4 = images_step(v3, p.image_refs@);
    let v5 = fold(v4, list_or_empty(p.annotations), annotation_stepper());
    let v6 = fold(v5, list_or_empty(p.form_fields), form_field_stepper());
    let v7 = tree_step(v6, p.structure_tree);
    let v8 = fold(v7, list_or_empty(p.blocks), block_stepper());
    let v9 = vectors_step(v8, p.vector_graphics);
    let v10 = ContentView { figures: v9.figures + p.figures@, ..v9 };
    let v11 = frames_step(v10, p.item_frames@);
    let v12 = fold(v11, p.projected_lines@, line_stepper());
    let v13 = regions_step(v12, p.regions);
    let l = v13.pool.len();
    let t = l + opt_bytes(p.page_label).len();
    let m = t + encode_utf8(p.text@).len();
    LiteParsePage {
        page_number: clamp(p.page_number),
        flags: page_flags(p),
        width: p.width,
        height: p.height,
        label: str_at(l, p.page_label),
        text: str_at(t, Some(p.text)),
        markdown: str_at(m, Some(p.markdown)),
        geometry: match p.geometry {
            Some(g) => g.0,
            None => no_geometry(),
        },
        content_bounds: rect_or_zero(p.content_bounds),
        complexity: complexity_of(p.complexity),
        item_offset: v.items.len() as u32,
        item_count: gained(v.items, v1.items),
        graphic_offset: v1.graphics.len() as u32,
        graphic_count: gained(v1.graphics, v2.graphics),
        struct_node_offset: v2.struct_nodes.len() as u32,
        struct_node_count: gained(v2.struct_nodes, v3.struct_nodes),
        image_ref_offset: v3.image_refs.len() as u32,
        image_ref_count: gained(v3.image_refs, v4.image_refs),
        annotation_offset: v4.annotations.len() as u32,
        annotation_count: gained(v4.annotations, v5.annotations),
        form_field_offset: v5.form_fields.len() as u32,
        form_field_count: gained(v5.form_fields, v6.form_fields),
        structure_node_offset: v6.structure_nodes.len() as u32,
        structure_node_count: gained(v6.structure_nodes, v7.structure_nodes),
        block_offset: v7.blocks.len() as u32,
        block_count: gained(v7.blocks, v8.blocks),
        vector_shape_offset: v8.vector_shapes.len() as u32,
        vector_shape_count: gained(v8.vector_shapes, v9.vector_shapes),
        vector_line_offset: v8.vector_lines.len() as u32,
        vector_line_count: gained(v8.vector_lines, v9.vector_lines),
        figure_offset: v9.figures.len() as u32,
        figure_count: gained(v9.figures, v10.figures),
        item_frame_offset: v10.item_frames.len() as u32,
        item_frame_count: gained(v10.item_frames, v11.item_frames),
        projected_line_offset: v11.lines.len() as u32,
        projected_line_count: gained(v11.lines, v12.lines),
        region_offset: v12.regions.len() as u32,
        region_count: gained(v12.regions, v13.regions),
    }
}

/// Packing one page: every part in turn, then its strings and record.
pub open spec fn page_step(v: ContentView, p: PageParts) -> ContentView {
    let w = result_parts(content_parts(v, p), p);
    ContentView {
        pool: w.pool + opt_bytes(p.page_label) + encode_utf8(p.text@) + encode_utf8(p.markdown@),
        pages: w.pages.push(page_record(v, p)),
        ..w
    }
}

/// Packing pages one after the other.
pub open spec fn page_stepper() -> spec_fn(ContentView, PageParts) -> ContentView {
    |v: ContentView, p: PageParts| page_step(v, p)
}

proof fn lemma_tree_step_grows(v: ContentView, t: Option<StructureTree>)
    ensures
        le(v, tree_step(v, t)),
{
    if let Some(tree) = t {
        lemma_structure_steps_grow(tree, v.structure_nodes.len());
        lemma_fold_from(v, tree_layout(tree), node_stepper(tree, v.structure_nodes.len()));
    }
}

proof fn lemma_fits_below(v: ContentView, w: ContentView)
    requires
        fits(w),
        le(v, w),
    ensures
        fits(v),
{
}

/// The arrays packing a page passes through are never longer than the
/// ones it ends with.
proof fn lemma_page_chain(v: ContentView, p: PageParts)
    ensures
        le(v, content_parts(v, p)),
        le(content_parts(v, p), result_parts(content_parts(v, p), p)),
        le(result_parts(content_parts(v, p), p), page_step(v, p)),
{
    lemma_item_steps_grow();
    lemma_page_steps_grow();
    lemma_block_steps_grow();
    lemma_line_steps_grow();
    let v1 = fold(v, p.text_items@, item_stepper());
    let v2 = fold(v1, p.graphics@, graphic_stepper());
    let v3 = fold(v2, p.struct_nodes@, struct_node_stepper());
    let v4 = images_step(v3, p.image_refs@);
    let v5 = fold(v4, list_or_empty(p.annotations), annotation_stepper());
    let v6 = fold(v5, list_or_empty(p.form_fields), form_field_stepper());
    lemma_fold_from(v, p.text_items@, item_stepper());
    lemma_fold_from(v1, p.graphics@, graphic_stepper());
    lemma_fold_from(v2, p.struct_nodes@, struct_node_stepper());
    lemma_fold_from(v4, list_or_empty(p.annotations), annotation_stepper());
    lemma_fold_from(v5, list_or_empty(p.form_fields), form_field_stepper());
    lemma_tree_step_grows(v6, p.structure_tree);
    let v7 = content_parts(v, p);
    let v8 = fold(v7, list_or_empty(p.blocks), block_stepper());
    let v9 = vectors_step(v8, p.vector_graphics);
    let v10 = ContentView { figures: v9.figures + p.figures@, ..v9 };
    let v11 = frames_step(v10, p.item_frames@);
    lemma_fold_from(v7, list_or_empty(p.blocks), block_stepper());
    lemma_fold_from(v11, p.projected_lines@, line_stepper());
}

impl Packed {
    /// Empty arrays.
    pub fn new() -> (r: Self)
        ensures
            r.view() == empty_content(),
    {
        Packed {
            pool: Pool::new(),
            pages: Vec::new(),
            items: Vec::new(),
            words: Vec::new(),
            char_codes: Vec::new(),
            graphics: Vec::new(),
            struct_nodes: Vec::new(),
            mcids: Vec::new(),
            image_refs: Vec::new(),
            annotations: Vec::new(),
            quadpoints: Vec::new(),
            form_fields: Vec::new(),
            strings: Vec::new(),
            structure_nodes: Vec::new(),
            structure_attributes: Vec::new(),
            blocks: Vec::new(),
            cells: Vec::new(),
            rows: Vec::new(),
            vector_shapes: Vec::new(),
            vector_lines: Vec::new(),
            figures: Vec::new(),
            item_frames: Vec::new(),
            projected_lines: Vec::new(),
            projected_spans: Vec::new(),
            region_paths: Vec::new(),
            regions: PackedRegions::new(),
        }
    }

    /// Pack the page-content parts of a page, filling the ranges of its
    /// record that they occupy.
    #[verifier::spinoff_prover]
    #[verifier::rlimit(50)]
    fn push_content_parts(&mut self, p: &PageParts, rec: &mut LiteParsePage)
        requires
            parts_well_formed(*p),
            fits(content_parts(old(self).view(), *p)),
        ensures
            final(self).view() == content_parts(old(self).view(), *p),
            final(rec).item_offset == page_record(old(self).view(), *p).item_offset,
            final(rec).item_count == page_record(old(self).view(), *p).item_count,
            final(rec).graphic_offset == page_record(old(self).view(), *p).graphic_offset,
            final(rec).graphic_count == page_record(old(self).view(), *p).graphic_count,
            final(rec).struct_node_offset == page_record(old(self).view(), *p).struct_node_offset,
            final(rec).struct_node_count == page_record(old(self).view(), *p).struct_node_count,
            final(rec).image_ref_offset == page_record(old(self).view(), *p).image_ref_offset,
            final(rec).image_ref_count == page_record(old(self).view(), *p).image_ref_count,
            final(rec).annotation_offset == page_record(old(self).view(), *p).annotation_offset,
            final(rec).annotation_count == page_record(old(self).view(), *p).annotation_count,
            final(rec).form_field_offset == page_record(old(self).view(), *p).form_field_offset,
            final(rec).form_field_count == page_record(old(self).view(), *p).form_field_count,
            final(rec).structure_node_offset == page_record(old(self).view(), *p).structure_node_offset,
            final(rec).structure_node_count == page_record(old(self).view(), *p).structure_node_count,
            final(rec).block_offset == old(rec).block_offset,
            final(rec).block_count == old(rec).block_count,
            final(rec).vector_shape_offset == old(rec).vector_shape_offset,
            final(rec).vector_shape_count == old(rec).vector_shape_count,
            final(rec).vector_line_offset == old(rec).vector_line_offset,
            final(rec).vector_line_count == old(rec).vector_line_count,
            final(rec).figure_offset == old(rec).figure_offset,
            final(rec).figure_count == old(rec).figure_count,
            final(rec).item_frame_offset == old(rec).item_frame_offset,
            final(rec).item_frame_count == old(rec).item_frame_count,
            final(rec).projected_line_offset == old(rec).projected_line_offset,
            final(rec).projected_line_count == old(rec).projected_line_count,
            final(rec).region_offset == old(rec).region_offset,
            final(rec).region_count == old(rec).region_count,
    {
        let ghost v = self.view();
        proof {
            reveal(page_record);
        }
        let ghost v1 = fold(v, p.text_items@, item_stepper());
        let ghost v2 = fold(v1, p.graphics@, graphic_stepper());
        let ghost v3 = fold(v2, p.struct_nodes@, struct_node_stepper());
        let ghost v4 = images_step(v3, p.image_refs@);
        let ghost v5 = fold(v4, list_or_empty(p.annotations), annotation_stepper());
        let ghost v6 = fold(v5, list_or_empty(p.form_fields), form_field_stepper());
        let ghost v7 = content_parts(v, *p);
        proof {
            lemma_item_steps_grow();
            lemma_page_steps_grow();
            lemma_fold_from(v, p.text_items@, item_stepper());
            lemma_fold_from(v1, p.graphics@, graphic_stepper());
            lemma_fold_from(v2, p.struct_nodes@, struct_node_stepper());
            lemma_fold_from(v4, list_or_empty(p.annotations), annotation_stepper());
            lemma_fold_from(v5, list_or_empty(p.form_fields), form_field_stepper());
            lemma_tree_step_grows(v6, p.structure_tree);
            lemma_fits_below(v6, v7);
            lemma_fits_below(v5, v7);
            lemma_fits_below(v4, v7);
            lemma_fits_below(v3, v7);
            lemma_fits_below(v2, v7);
            lemma_fits_below(v1, v7);
        }
        let item_offset = packed_len(self.items.len());
        self.push_items(&p.text_items);
        rec.item_offset = item_offset;
        rec.item_count = packed_len(self.items.len() - item_offset as usize);
        let graphic_offset = packed_len(self.graphics.len());
        self.push_graphics(&p.graphics);
        rec.graphic_offset = graphic_offset;
        rec.graphic_count = packed_len(self.graphics.len() - graphic_offset as usize);
        let struct_node_offset = packed_len(self.struct_nodes.len());
        self.push_struct_nodes(&p.struct_nodes);
        rec.struct_node_offset = struct_node_offset;
        rec.struct_node_count = packed_len(self.struct_nodes.len() - struct_node_offset as usize);
        let image_ref_offset = packed_len(self.image_refs.len());
        let images: Vec<LiteParseImageRef> = pack_all(&mut self.pool, p.image_refs.as_slice());
        proof {
            assert(images@ =~= pooled::<ImageRef, LiteParseImageRef>(v3.pool.len(), p.image_refs@));
        }
        append_copies(&mut self.image_refs, images.as_slice());
        rec.image_ref_offset = image_ref_offset;
        rec.image_ref_count = packed_len(self.image_refs.len() - image_ref_offset as usize);
        let annotation_offset = packed_len(self.annotations.len());
        match &p.annotations {
            Some(xs) => self.push_annotations(xs),
            None => {},
        }
        rec.annotation_offset = annotation_offset;
        rec.annotation_count = packed_len(self.annotations.len() - annotation_offset as usize);
        let form_field_offset = packed_len(self.form_fields.len());
        match &p.form_fields {
            Some(xs) => self.push_form_fields(xs),
            None => {},
        }
        rec.form_field_offset = form_field_offset;
        rec.form_field_count = packed_len(self.form_fields.len() - form_field_offset as usize);
        let structure_node_offset = packed_len(self.structure_nodes.len());
        match &p.structure_tree {
            Some(t) => self.push_structure_tree(t),
            None => {},
        }
        rec.structure_node_offset = structure_node_offset;
        rec.structure_node_count = packed_len(self.structure_nodes.len() - structure_node_offset as usize);
    }
}

/// The fields of a page record besides its ranges.
pub proof fn lemma_page_record_head(v: ContentView, p: PageParts)
    ensures
        ({
            let r = page_record(v, p);
            let l = result_parts(content_parts(v, p), p).pool.len();
            let t = l + opt_bytes(p.page_label).len();
            &&& r.page_number == clamp(p.page_number)
            &&& r.flags == page_flags(p)
            &&& r.width == p.width
            &&& r.height == p.height
            &&& r.label == str_at(l, p.page_label)
            &&& r.text == str_at(t, Some(p.text))
            &&& r.markdown == str_at(t + encode_utf8(p.text@).len(), Some(p.markdown))
            &&& r.geometry == (match p.geometry {
                Some(g) => g.0,
                None => no_geometry(),
            })
            &&& r.content_bounds == rect_or_zero(p.content_bounds)
            &&& r.complexity == complexity_of(p.complexity)
        }),
{
    reveal(page_record);
}

impl Packed {
    /// Pack the layout and result parts of a page onto arrays that already
    /// hold its page-content parts, filling the ranges they occupy.
    #[verifier::spinoff_prover]
    #[verifier::rlimit(50)]
    fn push_result_parts(&mut self, p: &PageParts, rec: &mut LiteParsePage, Ghost(v): Ghost<ContentView>)
        requires
            old(self).view() == content_parts(v, *p),
            fits(result_parts(old(self).view(), *p)),
        ensures
            final(self).view() == result_parts(old(self).view(), *p),
            final(rec).item_offset == old(rec).item_offset,
            final(rec).item_count == old(rec).item_count,
            final(rec).graphic_offset == old(rec).graphic_offset,
            final(rec).graphic_count == old(rec).graphic_count,
            final(rec).struct_node_offset == old(rec).struct_node_offset,
            final(rec).struct_node_count == old(rec).struct_node_count,
            final(rec).image_ref_offset == old(rec).image_ref_offset,
            final(rec).image_ref_count == old(rec).image_ref_count,
            final(rec).annotation_offset == old(rec).annotation_offset,
            final(rec).annotation_count == old(rec).annotation_count,
            final(rec).form_field_offset == old(rec).form_field_offset,
            final(rec).form_field_count == old(rec).form_field_count,
            final(rec).structure_node_offset == old(rec).structure_node_offset,
            final(rec).structure_node_count == old(rec).structure_node_count,
            final(rec).block_offset == page_record(v, *p).block_offset,
            final(rec).block_count == page_record(v, *p).block_count,
            final(rec).vector_shape_offset == page_record(v, *p).vector_shape_offset,
            final(rec).vector_shape_count == page_record(v, *p).vector_shape_count,
            final(rec).vector_line_offset == page_record(v, *p).vector_line_offset,
            final(rec).vector_line_count == page_record(v, *p).vector_line_count,
            final(rec).figure_offset == page_record(v, *p).figure_offset,
            final(rec).figure_count == page_record(v, *p).figure_count,
            final(rec).item_frame_offset == page_record(v, *p).item_frame_offset,
            final(rec).item_frame_count == page_record(v, *p).item_frame_count,
            final(rec).projected_line_offset == page_record(v, *p).projected_line_offset,
            final(rec).projected_line_count == page_record(v, *p).projected_line_count,
            final(rec).region_offset == page_record(v, *p).region_offset,
            final(rec).region_count == page_record(v, *p).region_count,
    {
        let ghost v7 = self.view();
        proof {
            reveal(page_record);
        }
        let ghost v8 = fold(v7, list_or_empty(p.blocks), block_stepper());
        let ghost v9 = vectors_step(v8, p.vector_graphics);
        let ghost v10 = ContentView { figures: v9.figures + p.figures@, ..v9 };
        let ghost v11 = frames_step(v10, p.item_frames@);
        let ghost v12 = fold(v11, p.projected_lines@, line_stepper());
        let ghost v13 = result_parts(v7, *p);
        proof {
            lemma_block_steps_grow();
            lemma_line_steps_grow();
            lemma_fold_from(v7, list_or_empty(p.blocks), block_stepper());
            lemma_fold_from(v11, p.projected_lines@, line_stepper());
            lemma_fits_below(v12, v13);
            lemma_fits_below(v11, v13);
            lemma_fits_below(v10, v13);
            lemma_fits_below(v9, v13);
            lemma_fits_below(v8, v13);
        }
        let block_offset = packed_len(self.blocks.len());
        match &p.blocks {
            Some(xs) => self.push_blocks(xs),
            None => {},
        }
        rec.block_offset = block_offset;
        rec.block_count = packed_len(self.blocks.len() - block_offset as usize);
        let vector_shape_offset = packed_len(self.vector_shapes.len());
        let vector_line_offset = packed_len(self.vector_lines.len());
        self.push_vectors(&p.vector_graphics);
        rec.vector_shape_offset = vector_shape_offset;
        rec.vector_shape_count = packed_len(self.vector_shapes.len() - vector_shape_offset as usize);
        rec.vector_line_offset = vector_line_offset;
        rec.vector_line_count = packed_len(self.vector_lines.len() - vector_line_offset as usize);
        let figure_offset = packed_len(self.figures.len());
        append_copies(&mut self.figures, p.figures.as_slice());
        rec.figure_offset = figure_offset;
        rec.figure_count = packed_len(self.figures.len() - figure_offset as usize);
        let item_frame_offset = packed_len(self.item_frames.len());
        self.push_frames(&p.item_frames);
        rec.item_frame_offset = item_frame_offset;
        rec.item_frame_count = packed_len(self.item_frames.len() - item_frame_offset as usize);
        let projected_line_offset = packed_len(self.projected_lines.len());
        self.push_lines(&p.projected_lines);
        rec.projected_line_offset = projected_line_offset;
        rec.projected_line_count = packed_len(self.projected_lines.len() - projected_line_offset as usize);
        let region_offset = packed_len(self.regions.regions.len());
        self.push_regions(&p.regions);
        rec.region_offset = region_offset;
        rec.region_count = packed_len(self.regions.regions.len() - region_offset as usize);
    }

    /// Pack one page: its text items, graphics, tagged nodes, images,
    /// annotations, form fields, structure tree, blocks, vector graphics,
    /// figures, item frames, projected lines and region tree, each onto the
    /// end of its array, then its label, text and Markdown, then its record
    /// with the range each part occupies. The arrays must stay addressable
    /// by `u32` offsets.
    #[verifier::spinoff_prover]
    #[verifier::rlimit(100)]
    pub fn push_page(&mut self, p: &PageParts)
        requires
            parts_well_formed(*p),
            fits(page_step(old(self).view(), *p)),
        ensures
            final(self).view() == page_step(old(self).view(), *p),
    {
        let ghost v = self.view();
        proof {
            lemma_page_record_head(v, *p);
            lemma_page_chain(v, *p);
            lemma_fits_below(result_parts(content_parts(v, *p), *p), page_step(v, *p));
            lemma_fits_below(content_parts(v, *p), page_step(v, *p));
        }
        let mut rec = LiteParsePage {
            page_number: 0,
            flags: 0,
            width: 0,
            height: 0,
            label: LiteParseStr { offset: 0, len: 0 },
            text: LiteParseStr { offset: 0, len: 0 },
            markdown: LiteParseStr { offset: 0, len: 0 },
            geometry: geometry_or_default(None).0,
            content_bounds: rect_value(None),
            complexity: complexity_value(&None),
            item_offset: 0,
            item_count: 0,
            graphic_offset: 0,
            graphic_count: 0,
            struct_node_offset: 0,
            struct_node_count: 0,
            image_ref_offset: 0,
            image_ref_count: 0,
            annotation_offset: 0,
            annotation_count: 0,
            form_field_offset: 0,
            form_field_count: 0,
            structure_node_offset: 0,
            structure_node_count: 0,
            block_offset: 0,
            block_count: 0,
            vector_shape_offset: 0,
            vector_shape_count: 0,
            vector_line_offset: 0,
            vector_line_count: 0,
            figure_offset: 0,
            figure_count: 0,
            item_frame_offset: 0,
            item_frame_count: 0,
            projected_line_offset: 0,
            projected_line_count: 0,
            region_offset: 0,
            region_count: 0,
        };
        self.push_content_parts(p, &mut rec);
        self.push_result_parts(p, &mut rec, Ghost(v));
        let (geometry, has_rotation) = geometry_or_default(p.geometry);
        rec.flags = flag_if(p.geometry.is_some(), LITEPARSE_PAGE_FLAG_HAS_GEOMETRY) | flag_if(
            has_rotation,
            LITEPARSE_PAGE_FLAG_HAS_ROTATION,
        ) | flag_if(p.content_bounds.is_some(), LITEPARSE_PAGE_FLAG_HAS_CONTENT_BOUNDS) | flag_if(
            p.complexity.is_some(),
            LITEPARSE_PAGE_FLAG_HAS_COMPLEXITY,
        ) | flag_if(p.annotations.is_some(), LITEPARSE_PAGE_FLAG_HAS_ANNOTATIONS) | flag_if(
            p.form_fields.is_some(),
            LITEPARSE_PAGE_FLAG_HAS_FORM_FIELDS,
        ) | flag_if(p.structure_tree.is_some(), LITEPARSE_PAGE_FLAG_HAS_STRUCTURE_TREE) | flag_if(
            p.blocks.is_some(),
            LITEPARSE_PAGE_FLAG_HAS_BLOCKS,
        ) | flag_if(p.vector_graphics.is_some(), LITEPARSE_PAGE_FLAG_HAS_VECTOR_GRAPHICS);
        rec.page_number = clamp_u32(p.page_number);
        rec.width = p.width;
        rec.height = p.height;
        rec.content_bounds = rect_value(p.content_bounds);
        rec.complexity = complexity_value(&p.complexity);
        rec.label = push_opt_string(&mut self.pool, &p.page_label);
        rec.text = self.pool.push(p.text.as_str());
        rec.markdown = self.pool.push(p.markdown.as_str());
        rec.geometry = geometry;
        self.pages.push(rec);
        proof {
            assert(self.pool.view() =~= page_step(v, *p).pool);
            assert(rec == page_record(v, *p));
        }
    }
}

fn complexity_value(c: &Option<PageComplexityStats>) -> (r: LiteParsePageComplexity)
    ensures
        r == complexity_of(*c),
{
    match c {
        Some(stats) => LiteParsePageComplexity::from_stats(stats),
        None => LiteParsePageComplexity {
            page_number: 0,
            flags: 0,
            text_length: 0,
            image_block_count: 0,
            text_coverage: 0,
            image_coverage: 0,
            largest_image_coverage: 0,
            page_area: 0,
            uncovered_vector_area: 0,
            reasons: 0,
            layout_column_count: 0,
            layout_ruled_table_count: 0,
            layout_text_table_run_count: 0,
            layout_figure_count: 0,
            layout_ruled_table_coverage: 0,
            layout_figure_coverage: 0,
            layout_reasons: 0,
        },
    }
}

// What packing keeps.
/// Whether `a` is a prefix of `b`.
pub open spec fn is_prefix<T>(a: Seq<T>, b: Seq<T>) -> bool {
    a.len() <= b.len() && forall|i: int| 0 <= i < a.len() ==> #[trigger] b[i] == a[i]
}

/// Whether every array of `w` starts with the same array of `v`.
#[verifier::opaque]
pub open spec fn extends(v: ContentView, w: ContentView) -> bool {
    &&& is_prefix(v.pool, w.pool)
    &&& is_prefix(v.pages, w.pages)
    &&& is_prefix(v.items, w.items)
    &&& is_prefix(v.words, w.words)
    &&& is_prefix(v.char_codes, w.char_codes)
    &&& is_prefix(v.graphics, w.graphics)
    &&& is_prefix(v.struct_nodes, w.struct_nodes)
    &&& is_prefix(v.mcids, w.mcids)
    &&& is_prefix(v.image_refs, w.image_refs)
    &&& is_prefix(v.annotations, w.annotations)
    &&& is_prefix(v.quadpoints, w.quadpoints)
    &&& is_prefix(v.form_fields, w.form_fields)
    &&& is_prefix(v.strings, w.strings)
    &&& is_prefix(v.structure_nodes, w.structure_nodes)
    &&& is_prefix(v.structure_attributes, w.structure_attributes)
    &&& is_prefix(v.blocks, w.blocks)
    &&& is_prefix(v.cells, w.cells)
    &&& is_prefix(v.rows, w.rows)
    &&& is_prefix(v.vector_shapes, w.vector_shapes)
    &&& is_prefix(v.vector_lines, w.vector_lines)
    &&& is_prefix(v.figures, w.figures)
    &&& is_prefix(v.item_frames, w.item_frames)
    &&& is_prefix(v.lines, w.lines)
    &&& is_prefix(v.spans, w.spans)
    &&& is_prefix(v.region_paths, w.region_paths)
    &&& is_prefix(v.regions, w.regions)
    &&& is_prefix(v.region_children, w.region_children)
}

/// Whether step `f` only appends to arrays.
pub open spec fn extending<T>(f: spec_fn(ContentView, T) -> ContentView) -> bool {
    forall|w: ContentView, x: T| #[trigger] extends(w, f(w, x))
}

pub proof fn lemma_prefix_trans<T>(a: Seq<T>, b: Seq<T>, c: Seq<T>)
    requires
        is_prefix(a, b),
        is_prefix(b, c),
    ensures
        is_prefix(a, c),
{
    assert forall|i: int| 0 <= i < a.len() implies #[trigger] c[i] == a[i] by {
        assert(b[i] == a[i]);
        assert(c[i] == b[i]);
    }
}

pub proof fn lemma_extends_trans(u: ContentView, v: ContentView, w: ContentView)
    requires
        extends(u, v),
        extends(v, w),
    ensures
        extends(u, w),
{
    reveal(extends);
    lemma_prefix_trans(u.pool, v.pool, w.pool);
    lemma_prefix_trans(u.pages, v.pages, w.pages);
    lemma_prefix_trans(u.items, v.items, w.items);
    lemma_prefix_trans(u.words, v.words, w.words);
    lemma_prefix_trans(u.char_codes, v.char_codes, w.char_codes);
    lemma_prefix_trans(u.graphics, v.graphics, w.graphics);
    lemma_prefix_trans(u.struct_nodes, v.struct_nodes, w.struct_nodes);
    lemma_prefix_trans(u.mcids, v.mcids, w.mcids);
    lemma_prefix_trans(u.image_refs, v.image_refs, w.image_refs);
    lemma_prefix_trans(u.annotations, v.annotations, w.annotations);
    lemma_prefix_trans(u.quadpoints, v.quadpoints, w.quadpoints);
    lemma_prefix_trans(u.form_fields, v.form_fields, w.form_fields);
    lemma_prefix_trans(u.strings, v.strings, w.strings);
    lemma_prefix_trans(u.structure_nodes, v.structure_nodes, w.structure_nodes);
    lemma_prefix_trans(u.structure_attributes, v.structure_attributes, w.structure_attributes);
    lemma_prefix_trans(u.blocks, v.blocks, w.blocks);
    lemma_prefix_trans(u.cells, v.cells, w.cells);
    lemma_prefix_trans(u.rows, v.rows, w.rows);
    lemma_prefix_trans(u.vector_shapes, v.vector_shapes, w.vector_shapes);
    lemma_prefix_trans(u.vector_lines, v.vector_lines, w.vector_lines);
    lemma_prefix_trans(u.figures, v.figures, w.figures);
    lemma_prefix_trans(u.item_frames, v.item_frames, w.item_frames);
    lemma_prefix_trans(u.lines, v.lines, w.lines);
    lemma_prefix_trans(u.spans, v.spans, w.spans);
    lemma_prefix_trans(u.region_paths, v.region_paths, w.region_paths);
    lemma_prefix_trans(u.regions, v.regions, w.regions);
    lemma_prefix_trans(u.region_children, v.region_children, w.region_children);
}

pub proof fn lemma_fold_extends<T>(v: ContentView, xs: Seq<T>, f: spec_fn(ContentView, T) -> ContentView)
    requires
        extending(f),
    ensures
        extends(v, fold(v, xs, f)),
    decreases xs.len(),
{
    reveal(extends);
    if xs.len() == 0 {
        assert(extends(v, v));
    } else {
        lemma_fold_extends(v, xs.drop_last(), f);
        let w = fold(v, xs.drop_last(), f);
        assert(extends(w, f(w, xs.last())));
        lemma_extends_trans(v, w, f(w, xs.last()));
    }
}

pub proof fn lemma_simple_steps_extend()
    ensures
        extending(item_stepper()),
        extending(span_stepper()),
        extending(graphic_stepper()),
        extending(struct_node_stepper()),
        extending(annotation_stepper()),
        extending(form_field_stepper()),
        extending(row_stepper()),
{
    reveal(extends);
}

/// Packing a structure element only appends to the arrays.
pub proof fn lemma_node_steps_extend(t: StructureTree, offset: nat)
    ensures
        extending(node_stepper(t, offset)),
{
    reveal(extends);
    lemma_simple_steps_extend();
    assert forall|w: ContentView, r: StructureNodeRecord<u32>| #[trigger] extends(w, node_stepper(t, offset)(w, r)) by {
        let c = t.contents@[r.node as int];
        let w1 = attrs_step(w, c);
        assert(extends(w, w1));
        lemma_fold_extends(w1, c.annotations@, annotation_stepper());
        let w2 = fold(w1, c.annotations@, annotation_stepper());
        lemma_extends_trans(w, w1, w2);
        lemma_extends_trans(w, w2, node_stepper(t, offset)(w, r));
    }
}

/// Packing a block or a projected line only appends to the arrays.
pub proof fn lemma_layout_steps_extend()
    ensures
        extending(block_stepper()),
        extending(line_stepper()),
{
    reveal(extends);
    lemma_simple_steps_extend();
    assert forall|w: ContentView, b: LayoutBlock| #[trigger] extends(w, block_stepper()(w, b)) by {
        let w1 = cells_step(w, list_or_empty(b.header));
        lemma_fold_extends(w1, list_or_empty(b.rows), row_stepper());
        let w2 = fold(w1, list_or_empty(b.rows), row_stepper());
        let w3 = strings_step(w2, list_or_empty(b.lines));
        lemma_extends_trans(w, w1, w2);
        lemma_extends_trans(w, w2, w3);
        lemma_extends_trans(w, w3, block_stepper()(w, b));
    }
    assert forall|w: ContentView, l: ProjectedTextLine| #[trigger] extends(w, line_stepper()(w, l)) by {
        lemma_fold_extends(w, l.spans@, span_stepper());
        let w1 = fold(w, l.spans@, span_stepper());
        lemma_extends_trans(w, w1, line_stepper()(w, l));
    }
}

#[verifier::spinoff_prover]
proof fn lemma_content_parts_extend(v: ContentView, p: PageParts)
    ensures
        extends(v, content_parts(v, p)),
{
    reveal(extends);
    lemma_simple_steps_extend();
    let v1 = fold(v, p.text_items@, item_stepper());
    let v2 = fold(v1, p.graphics@, graphic_stepper());
    let v3 = fold(v2, p.struct_nodes@, struct_node_stepper());
    let v4 = images_step(v3, p.image_refs@);
    let v5 = fold(v4, list_or_empty(p.annotations), annotation_stepper());
    let v6 = fold(v5, list_or_empty(p.form_fields), form_field_stepper());
    lemma_fold_extends(v, p.text_items@, item_stepper());
    lemma_fold_extends(v1, p.graphics@, graphic_stepper());
    lemma_extends_trans(v, v1, v2);
    lemma_fold_extends(v2, p.struct_nodes@, struct_node_stepper());
    lemma_extends_trans(v, v2, v3);
    assert(extends(v3, v4));
    lemma_extends_trans(v, v3, v4);
    lemma_fold_extends(v4, list_or_empty(p.annotations), annotation_stepper());
    lemma_extends_trans(v, v4, v5);
    lemma_fold_extends(v5, list_or_empty(p.form_fields), form_field_stepper());
    lemma_extends_trans(v, v5, v6);
    lemma_tree_step_extends(v6, p.structure_tree);
    lemma_extends_trans(v, v6, content_parts(v, p));
}

proof fn lemma_tree_step_extends(v: ContentView, t: Option<StructureTree>)
    ensures
        extends(v, tree_step(v, t)),
{
    reveal(extends);
    match t {
        Some(tree) => {
            lemma_node_steps_extend(tree, v.structure_nodes.len());
            lemma_fold_extends(v, tree_layout(tree), node_stepper(tree, v.structure_nodes.len()));
        },
        None => {
            assert(extends(v, v));
        },
    }
}

#[verifier::spinoff_prover]
proof fn lemma_result_parts_extend(v7: ContentView, p: PageParts)
    ensures
        extends(v7, result_parts(v7, p)),
{
    reveal(extends);
    lemma_layout_steps_extend();
    let v8 = fold(v7, list_or_empty(p.blocks), block_stepper());
    let v9 = vectors_step(v8, p.vector_graphics);
    let v10 = ContentView { figures: v9.figures + p.figures@, ..v9 };
    let v11 = frames_step(v10, p.item_frames@);
    let v12 = fold(v11, p.projected_lines@, line_stepper());
    lemma_fold_extends(v7, list_or_empty(p.blocks), block_stepper());
    assert(extends(v8, v9));
    lemma_extends_trans(v7, v8, v9);
    assert(extends(v9, v10));
    lemma_extends_trans(v7, v9, v10);
    assert(extends(v10, v11));
    lemma_extends_trans(v7, v10, v11);
    lemma_fold_extends(v11, p.projected_lines@, line_stepper());
    lemma_extends_trans(v7, v11, v12);
    assert(extends(v12, result_parts(v7, p)));
    lemma_extends_trans(v7, v12, result_parts(v7, p));
}

/// The arrays right after a page's vector graphics are extended by the
/// arrays the whole page ends with.
pub proof fn lemma_vectors_to_page(v: ContentView, p: PageParts)
    ensures
        extends(
            vectors_step(fold(content_parts(v, p), list_or_empty(p.blocks), block_stepper()), p.vector_graphics),
            page_step(v, p),
        ),
{
    lemma_layout_steps_extend();
    let v7 = content_parts(v, p);
    let v8 = fold(v7, list_or_empty(p.blocks), block_stepper());
    let v9 = vectors_step(v8, p.vector_graphics);
    let v10 = ContentView { figures: v9.figures + p.figures@, ..v9 };
    let v11 = frames_step(v10, p.item_frames@);
    let v12 = fold(v11, p.projected_lines@, line_stepper());
    let v13 = result_parts(v7, p);
    let w = page_step(v, p);
    assert(extends(v9, v11)) by {
        reveal(extends);
    }
    lemma_fold_extends(v11, p.projected_lines@, line_stepper());
    lemma_extends_trans(v9, v11, v12);
    assert(extends(v12, v13)) by {
        reveal(extends);
    }
    lemma_extends_trans(v9, v12, v13);
    assert(w == page_tail(v13, p, page_record(v, p)));
    lemma_page_tail_extends(v13, p, page_record(v, p));
    lemma_extends_trans(v9, v13, w);
}

/// The ranges of page record `r` lie inside the arrays of `v`.
pub open spec fn page_ranges_in(r: LiteParsePage, v: ContentView) -> bool {
    &&& r.item_offset + r.item_count <= v.items.len()
    &&& r.graphic_offset + r.graphic_count <= v.graphics.len()
    &&& r.struct_node_offset + r.struct_node_count <= v.struct_nodes.len()
    &&& r.image_ref_offset + r.image_ref_count <= v.image_refs.len()
    &&& r.annotation_offset + r.annotation_count <= v.annotations.len()
    &&& r.form_field_offset + r.form_field_count <= v.form_fields.len()
    &&& r.structure_node_offset + r.structure_node_count <= v.structure_nodes.len()
    &&& r.block_offset + r.block_count <= v.blocks.len()
    &&& r.vector_shape_offset + r.vector_shape_count <= v.vector_shapes.len()
    &&& r.vector_line_offset + r.vector_line_count <= v.vector_lines.len()
    &&& r.figure_offset + r.figure_count <= v.figures.len()
    &&& r.item_frame_offset + r.item_frame_count <= v.item_frames.len()
    &&& r.projected_line_offset + r.projected_line_count <= v.lines.len()
    &&& r.region_offset + r.region_count <= v.regions.len()
}

/// Every page of `v` has its ranges inside the arrays of `v`.
pub open spec fn consistent(v: ContentView) -> bool {
    forall|i: int| 0 <= i < v.pages.len() ==> page_ranges_in(#[trigger] v.pages[i], v)
}

proof fn lemma_prefix_len<T>(a: Seq<T>, b: Seq<T>)
    requires
        is_prefix(a, b),
    ensures
        a.len() <= b.len(),
{
}


/// Whether step `f` leaves the page array alone.
pub open spec fn keeps_pages<T>(f: spec_fn(ContentView, T) -> ContentView) -> bool {
    forall|w: ContentView, x: T| (#[trigger] f(w, x)).pages == w.pages
}

proof fn lemma_fold_keeps_pages<T>(v: ContentView, xs: Seq<T>, f: spec_fn(ContentView, T) -> ContentView)
    requires
        keeps_pages(f),
    ensures
        fold(v, xs, f).pages == v.pages,
    decreases xs.len(),
{
    if xs.len() > 0 {
        lemma_fold_keeps_pages(v, xs.drop_last(), f);
        let w = fold(v, xs.drop_last(), f);
        assert(f(w, xs.last()).pages == w.pages);
    }
}

proof fn lemma_steps_keep_pages(t: Option<StructureTree>, offset: nat)
    ensures
        keeps_pages(item_stepper()),
        keeps_pages(span_stepper()),
        keeps_pages(graphic_stepper()),
        keeps_pages(struct_node_stepper()),
        keeps_pages(annotation_stepper()),
        keeps_pages(form_field_stepper()),
        keeps_pages(row_stepper()),
        keeps_pages(block_stepper()),
        keeps_pages(line_stepper()),
        t matches Some(tree) ==> keeps_pages(node_stepper(tree, offset)),
{
    assert(keeps_pages(annotation_stepper()));
    assert(keeps_pages(row_stepper()));
    assert(keeps_pages(span_stepper()));
    assert forall|w: ContentView, b: LayoutBlock| (#[trigger] block_stepper()(w, b)).pages == w.pages by {
        lemma_fold_keeps_pages(cells_step(w, list_or_empty(b.header)), list_or_empty(b.rows), row_stepper());
    }
    assert forall|w: ContentView, l: ProjectedTextLine| (#[trigger] line_stepper()(w, l)).pages == w.pages by {
        lemma_fold_keeps_pages(w, l.spans@, span_stepper());
    }
    if let Some(tree) = t {
        assert forall|w: ContentView, r: StructureNodeRecord<u32>|
            (#[trigger] node_stepper(tree, offset)(w, r)).pages == w.pages by {
            let c = tree.contents@[r.node as int];
            lemma_fold_keeps_pages(attrs_step(w, c), c.annotations@, annotation_stepper());
        }
    }
}

proof fn lemma_parts_keep_pages(v: ContentView, p: PageParts)
    ensures
        result_parts(content_parts(v, p), p).pages == v.pages,
{
    let v1 = fold(v, p.text_items@, item_stepper());
    let v2 = fold(v1, p.graphics@, graphic_stepper());
    let v3 = fold(v2, p.struct_nodes@, struct_node_stepper());
    let v4 = images_step(v3, p.image_refs@);
    let v5 = fold(v4, list_or_empty(p.annotations), annotation_stepper());
    let v6 = fold(v5, list_or_empty(p.form_fields), form_field_stepper());
    lemma_steps_keep_pages(p.structure_tree, v6.structure_nodes.len());
    lemma_fold_keeps_pages(v, p.text_items@, item_stepper());
    lemma_fold_keeps_pages(v1, p.graphics@, graphic_stepper());
    lemma_fold_keeps_pages(v2, p.struct_nodes@, struct_node_stepper());
    lemma_fold_keeps_pages(v4, list_or_empty(p.annotations), annotation_stepper());
    lemma_fold_keeps_pages(v5, list_or_empty(p.form_fields), form_field_stepper());
    if let Some(tree) = p.structure_tree {
        lemma_fold_keeps_pages(v6, tree_layout(tree), node_stepper(tree, v6.structure_nodes.len()));
    }
    let v7 = content_parts(v, p);
    let v8 = fold(v7, list_or_empty(p.blocks), block_stepper());
    let v9 = vectors_step(v8, p.vector_graphics);
    let v10 = ContentView { figures: v9.figures + p.figures@, ..v9 };
    let v11 = frames_step(v10, p.item_frames@);
    lemma_fold_keeps_pages(v7, list_or_empty(p.blocks), block_stepper());
    lemma_fold_keeps_pages(v11, p.projected_lines@, line_stepper());
}

/// The last step of packing a page: its strings and record.
pub open spec fn page_tail(w: ContentView, p: PageParts, r: LiteParsePage) -> ContentView {
    ContentView {
        pool: w.pool + opt_bytes(p.page_label) + encode_utf8(p.text@) + encode_utf8(p.markdown@),
        pages: w.pages.push(r),
        ..w
    }
}

proof fn lemma_page_tail_extends(w: ContentView, p: PageParts, r: LiteParsePage)
    ensures
        extends(w, page_tail(w, p, r)),
{
    reveal(extends);
}

#[verifier::spinoff_prover]
proof fn lemma_page_extends(v: ContentView, p: PageParts)
    ensures
        extends(v, page_step(v, p)),
        page_step(v, p).pages == v.pages.push(page_record(v, p)),
{
    let v7 = content_parts(v, p);
    let v13 = result_parts(v7, p);
    assert(page_step(v, p) == page_tail(v13, p, page_record(v, p)));
    lemma_content_parts_extend(v, p);
    lemma_result_parts_extend(v7, p);
    lemma_extends_trans(v, v7, v13);
    lemma_page_tail_extends(v13, p, page_record(v, p));
    lemma_extends_trans(v, v13, page_step(v, p));
    lemma_parts_keep_pages(v, p);
}

/// The lengths the arrays pass through while a page is packed.
proof fn lemma_page_lengths(v: ContentView, p: PageParts)
    ensures
        ({
            let v1 = fold(v, p.text_items@, item_stepper());
            let v2 = fold(v1, p.graphics@, graphic_stepper());
            let v3 = fold(v2, p.struct_nodes@, struct_node_stepper());
            let v4 = images_step(v3, p.image_refs@);
            let v5 = fold(v4, list_or_empty(p.annotations), annotation_stepper());
            let v6 = fold(v5, list_or_empty(p.form_fields), form_field_stepper());
            let v7 = content_parts(v, p);
            let v8 = fold(v7, list_or_empty(p.blocks), block_stepper());
            let v9 = vectors_step(v8, p.vector_graphics);
            let v10 = ContentView { figures: v9.figures + p.figures@, ..v9 };
            let v11 = frames_step(v10, p.item_frames@);
            let v12 = fold(v11, p.projected_lines@, line_stepper());
            let v13 = result_parts(v7, p);
            let w = page_step(v, p);
            &&& le(v, v1) && le(v1, v2) && le(v2, v3) && le(v3, v4) && le(v4, v5) && le(v5, v6)
            &&& le(v6, v7) && le(v7, v8) && le(v8, v9) && le(v9, v10) && le(v10, v11)
            &&& le(v11, v12) && le(v12, v13) && le(v13, w)
        }),
{
    lemma_item_steps_grow();
    lemma_page_steps_grow();
    lemma_block_steps_grow();
    lemma_line_steps_grow();
    let v1 = fold(v, p.text_items@, item_stepper());
    let v2 = fold(v1, p.graphics@, graphic_stepper());
    let v3 = fold(v2, p.struct_nodes@, struct_node_stepper());
    let v4 = images_step(v3, p.image_refs@);
    let v5 = fold(v4, list_or_empty(p.annotations), annotation_stepper());
    let v6 = fold(v5, list_or_empty(p.form_fields), form_field_stepper());
    lemma_fold_from(v, p.text_items@, item_stepper());
    lemma_fold_from(v1, p.graphics@, graphic_stepper());
    lemma_fold_from(v2, p.struct_nodes@, struct_node_stepper());
    lemma_fold_from(v4, list_or_empty(p.annotations), annotation_stepper());
    lemma_fold_from(v5, list_or_empty(p.form_fields), form_field_stepper());
    lemma_tree_step_grows(v6, p.structure_tree);
    let v7 = content_parts(v, p);
    let v8 = fold(v7, list_or_empty(p.blocks), block_stepper());
    let v9 = vectors_step(v8, p.vector_graphics);
    let v10 = ContentView { figures: v9.figures + p.figures@, ..v9 };
    let v11 = frames_step(v10, p.item_frames@);
    lemma_fold_from(v7, list_or_empty(p.blocks), block_stepper());
    lemma_fold_from(v11, p.projected_lines@, line_stepper());
}

proof fn lemma_record_ranges(v: ContentView, p: PageParts)
    requires
        fits(page_step(v, p)),
    ensures
        page_ranges_in(page_record(v, p), page_step(v, p)),
{
    reveal(page_record);
    lemma_page_lengths(v, p);
}

/// Packing a page only appends to the arrays: every record and byte
/// packed before stays where it was. Its record is the last page, and
/// each of its ranges spans what its part appended, inside the arrays; so
/// arrays whose pages all have their ranges inside them keep that
/// property.
pub proof fn lemma_push_page_consistent(v: ContentView, p: PageParts)
    requires
        fits(page_step(v, p)),
    ensures
        extends(v, page_step(v, p)),
        page_step(v, p).pages == v.pages.push(page_record(v, p)),
        page_ranges_in(page_record(v, p), page_step(v, p)),
        consistent(v) ==> consistent(page_step(v, p)),
{
    reveal(extends);
    let w = page_step(v, p);
    lemma_page_extends(v, p);
    lemma_record_ranges(v, p);
    if consistent(v) {
        assert forall|i: int| 0 <= i < w.pages.len() implies page_ranges_in(#[trigger] w.pages[i], w) by {
            if i < v.pages.len() {
                assert(w.pages[i] == v.pages[i]);
                assert(page_ranges_in(v.pages[i], v));
            }
        }
    }
}

proof fn lemma_node_parents(v: ContentView, t: StructureTree, offset: nat, rs: Seq<StructureNodeRecord<u32>>)
    ensures
        fold(v, rs, node_stepper(t, offset)).structure_nodes.len() == v.structure_nodes.len() + rs.len(),
        forall|k: int|
            0 <= k < rs.len() ==> (#[trigger] fold(v, rs, node_stepper(t, offset)).structure_nodes[v.structure_nodes.len()
                + k]).parent_index == shifted(rs[k].parent_index, offset),
        forall|j: int|
            0 <= j < v.structure_nodes.len() ==> #[trigger] fold(v, rs, node_stepper(t, offset)).structure_nodes[j]
                == v.structure_nodes[j],
    decreases rs.len(),
{
    let f = node_stepper(t, offset);
    if rs.len() > 0 {
        let pre = rs.drop_last();
        lemma_node_parents(v, t, offset, pre);
        let w = fold(v, pre, f);
        let r = rs.last();
        let c = t.contents@[r.node as int];
        lemma_annotations_keep_nodes(attrs_step(w, c), c.annotations@);
        let x = fold(v, rs, f);
        assert(x == f(w, r));
        assert forall|k: int| 0 <= k < rs.len() implies (#[trigger] x.structure_nodes[v.structure_nodes.len()
            + k]).parent_index == shifted(rs[k].parent_index, offset) by {
            if k < pre.len() {
                assert(x.structure_nodes[v.structure_nodes.len() + k] == w.structure_nodes[v.structure_nodes.len()
                    + k]);
                assert(pre[k] == rs[k]);
            }
        }
        assert forall|j: int| 0 <= j < v.structure_nodes.len() implies #[trigger] x.structure_nodes[j]
            == v.structure_nodes[j] by {
            assert(x.structure_nodes[j] == w.structure_nodes[j]);
        }
    }
}

/// Structure nodes name parents by absolute index: each node a page's
/// tree packs names no parent, or an earlier node of that page's range.
pub proof fn lemma_structure_parents_absolute(v: ContentView, p: PageParts)
    requires
        fits(page_step(v, p)),
    ensures
        ({
            let r = page_record(v, p);
            let w = page_step(v, p);
            forall|j: int|
                r.structure_node_offset <= j < r.structure_node_offset + r.structure_node_count ==> {
                    ||| (#[trigger] w.structure_nodes[j]).parent_index == LITEPARSE_NO_PARENT
                    ||| r.structure_node_offset <= w.structure_nodes[j].parent_index < j
                }
        }),
{
    reveal(page_record);
    let v1 = fold(v, p.text_items@, item_stepper());
    let v2 = fold(v1, p.graphics@, graphic_stepper());
    let v3 = fold(v2, p.struct_nodes@, struct_node_stepper());
    let v4 = images_step(v3, p.image_refs@);
    let v5 = fold(v4, list_or_empty(p.annotations), annotation_stepper());
    let v6 = fold(v5, list_or_empty(p.form_fields), form_field_stepper());
    let v7 = content_parts(v, p);
    let v13 = result_parts(v7, p);
    let w = page_step(v, p);
    let r = page_record(v, p);
    lemma_page_lengths(v, p);
    lemma_result_parts_extend(v7, p);
    assert(w == page_tail(v13, p, r));
    lemma_page_tail_extends(v13, p, r);
    lemma_extends_trans(v7, v13, w);
    reveal(extends);
    let offset = v6.structure_nodes.len();
    match p.structure_tree {
        Some(t) => {
            let layout = tree_layout(t);
            lemma_node_parents(v6, t, offset, layout);
            lemma_tree_bounds(v6, t);
            assert forall|j: int|
                r.structure_node_offset <= j < r.structure_node_offset + r.structure_node_count implies {
                    ||| (#[trigger] w.structure_nodes[j]).parent_index == LITEPARSE_NO_PARENT
                    ||| r.structure_node_offset <= w.structure_nodes[j].parent_index < j
                } by {
                let k = j - offset;
                assert(w.structure_nodes[j] == v7.structure_nodes[offset + k]);
                assert(parent_ok(layout, 0, k));
            }
        },
        None => {},
    }
}

pub proof fn lemma_extends_fits(v: ContentView, w: ContentView)
    requires
        extends(v, w),
        fits(w),
    ensures
        fits(v),
{
    reveal(extends);
}

/// The arrays a fold passes through are extended by the ones it ends
/// with.
pub proof fn lemma_fold_take_extends<T>(v: ContentView, xs: Seq<T>, f: spec_fn(ContentView, T) -> ContentView, j: int)
    requires
        0 <= j <= xs.len(),
        extending(f),
    ensures
        extends(fold(v, xs.take(j), f), fold(v, xs, f)),
    decreases xs.len() - j,
{
    if j < xs.len() {
        lemma_fold_take_extends(v, xs, f, j + 1);
        lemma_fold_next(v, xs, f, j);
        let a = fold(v, xs.take(j), f);
        assert(extends(a, f(a, xs[j])));
        lemma_extends_trans(a, fold(v, xs.take(j + 1), f), fold(v, xs, f));
    } else {
        lemma_fold_all(v, xs, f);
        reveal(extends);
    }
}

pub proof fn lemma_item_parts_extends(w: ContentView, it: TextItem)
    ensures
        extends(item_parts(w, it), item_step(w, it)),
{
    reveal(extends);
}

/// The arrays right after a page's text items are extended by the arrays
/// the whole page ends with.
pub proof fn lemma_items_to_page(v: ContentView, p: PageParts)
    ensures
        extends(fold(v, p.text_items@, item_stepper()), page_step(v, p)),
{
    lemma_simple_steps_extend();
    let v1 = fold(v, p.text_items@, item_stepper());
    let v2 = fold(v1, p.graphics@, graphic_stepper());
    let v3 = fold(v2, p.struct_nodes@, struct_node_stepper());
    let v4 = images_step(v3, p.image_refs@);
    let v5 = fold(v4, list_or_empty(p.annotations), annotation_stepper());
    let v6 = fold(v5, list_or_empty(p.form_fields), form_field_stepper());
    let v7 = content_parts(v, p);
    let v13 = result_parts(v7, p);
    let w = page_step(v, p);
    lemma_fold_extends(v1, p.graphics@, graphic_stepper());
    lemma_fold_extends(v2, p.struct_nodes@, struct_node_stepper());
    lemma_extends_trans(v1, v2, v3);
    assert(extends(v3, v4)) by {
        reveal(extends);
    }
    lemma_extends_trans(v1, v3, v4);
    lemma_fold_extends(v4, list_or_empty(p.annotations), annotation_stepper());
    lemma_extends_trans(v1, v4, v5);
    lemma_fold_extends(v5, list_or_empty(p.form_fields), form_field_stepper());
    lemma_extends_trans(v1, v5, v6);
    lemma_tree_step_extends(v6, p.structure_tree);
    lemma_extends_trans(v1, v6, v7);
    lemma_result_parts_extend(v7, p);
    lemma_extends_trans(v1, v7, v13);
    assert(w == page_tail(v13, p, page_record(v, p)));
    lemma_page_tail_extends(v13, p, page_record(v, p));
    lemma_extends_trans(v1, v13, w);
}

/// The arrays right after a page's graphics, tagged nodes, image
/// objects, annotations and form fields are each extended by the arrays the whole page ends with.
pub proof fn lemma_content_to_page(v: ContentView, p: PageParts)
    ensures
        ({
            let v1 = fold(v, p.text_items@, item_stepper());
            let v2 = fold(v1, p.graphics@, graphic_stepper());
            let v3 = fold(v2, p.struct_nodes@, struct_node_stepper());
            let v4 = images_step(v3, p.image_refs@);
            let v5 = fold(v4, list_or_empty(p.annotations), annotation_stepper());
            let v6 = fold(v5, list_or_empty(p.form_fields), form_field_stepper());
            &&& extends(v2, page_step(v, p))
            &&& extends(v3, page_step(v, p))
            &&& extends(v4, page_step(v, p))
            &&& extends(v5, page_step(v, p))
            &&& extends(v6, page_step(v, p))
            &&& extends(content_parts(v, p), page_step(v, p))
        }),
{
    lemma_simple_steps_extend();
    let v1 = fold(v, p.text_items@, item_stepper());
    let v2 = fold(v1, p.graphics@, graphic_stepper());
    let v3 = fold(v2, p.struct_nodes@, struct_node_stepper());
    let v4 = images_step(v3, p.image_refs@);
    let v5 = fold(v4, list_or_empty(p.annotations), annotation_stepper());
    let v6 = fold(v5, list_or_empty(p.form_fields), form_field_stepper());
    let v7 = content_parts(v, p);
    let v13 = result_parts(v7, p);
    let w = page_step(v, p);
    lemma_tree_step_extends(v6, p.structure_tree);
    lemma_result_parts_extend(v7, p);
    lemma_extends_trans(v6, v7, v13);
    assert(w == page_tail(v13, p, page_record(v, p)));
    lemma_page_tail_extends(v13, p, page_record(v, p));
    lemma_extends_trans(v6, v13, w);
    lemma_extends_trans(v7, v13, w);
    lemma_fold_extends(v5, list_or_empty(p.form_fields), form_field_stepper());
    lemma_extends_trans(v5, v6, w);
    lemma_fold_extends(v4, list_or_empty(p.annotations), annotation_stepper());
    lemma_extends_trans(v4, v5, w);
    assert(extends(v3, v4)) by {
        reveal(extends);
    }
    lemma_extends_trans(v3, v4, w);
    lemma_fold_extends(v2, p.struct_nodes@, struct_node_stepper());
    lemma_extends_trans(v2, v3, w);
}

/// Whether every page's structure tree, if any, names only contents it
/// has.
pub open spec fn all_well_formed(ps: Seq<PageParts>) -> bool {
    forall|k: int| 0 <= k < ps.len() ==> parts_well_formed(#[trigger] ps[k])
}

proof fn lemma_page_steps_grow_all()
    ensures
        grows(page_stepper()),
{
    assert forall|w: ContentView, p: PageParts| #[trigger] le(w, page_stepper()(w, p)) by {
        lemma_page_chain(w, p);
    }
}

/// Packing a page only appends to the arrays, its record last among the
/// pages.
pub proof fn lemma_pages_extend()
    ensures
        extending(page_stepper()),
        forall|w: ContentView, p: PageParts| #[trigger] page_stepper()(w, p).pages == w.pages.push(page_record(w, p)),
{
    assert forall|w: ContentView, p: PageParts| #[trigger] extends(w, page_stepper()(w, p)) by {
        lemma_page_extends(w, p);
    }
    assert forall|w: ContentView, p: PageParts| #[trigger] page_stepper()(w, p).pages == w.pages.push(page_record(w, p)) by {
        lemma_page_extends(w, p);
    }
}

/// Packing pages one after the other keeps every page's ranges inside the
/// arrays.
pub proof fn lemma_pages_consistent(v: ContentView, ps: Seq<PageParts>)
    requires
        consistent(v),
        fits(fold(v, ps, page_stepper())),
    ensures
        consistent(fold(v, ps, page_stepper())),
    decreases ps.len(),
{
    if ps.len() > 0 {
        lemma_page_steps_grow_all();
        let pre = ps.drop_last();
        lemma_fold_le(v, ps, page_stepper(), pre.len() as int);
        assert(ps.take(pre.len() as int) =~= pre);
        lemma_fits_below(fold(v, pre, page_stepper()), fold(v, ps, page_stepper()));
        lemma_pages_consistent(v, pre);
        lemma_push_page_consistent(fold(v, pre, page_stepper()), ps.last());
    }
}

impl Packed {
    /// Pack every page, in order, onto empty arrays. Every page's ranges
    /// lie inside the arrays it was packed into.
    pub fn pack_pages(pages: &Vec<PageParts>) -> (r: Self)
        requires
            all_well_formed(pages@),
            fits(fold(empty_content(), pages@, page_stepper())),
        ensures
            r.view() == fold(empty_content(), pages@, page_stepper()),
            consistent(r.view()),
    {
        let mut packed = Packed::new();
        let ghost v = packed.view();
        let mut i: usize = 0;
        while i < pages.len()
            invariant
                0 <= i <= pages@.len(),
                v == empty_content(),
                all_well_formed(pages@),
                fits(fold(v, pages@, page_stepper())),
                packed.view() == fold(v, pages@.take(i as int), page_stepper()),
            decreases pages@.len() - i,
        {
            proof {
                lemma_page_steps_grow_all();
                lemma_fold_le(v, pages@, page_stepper(), i + 1);
                lemma_fold_next(v, pages@, page_stepper(), i as int);
                lemma_fits_below(fold(v, pages@.take(i + 1), page_stepper()), fold(v, pages@, page_stepper()));
                assert(parts_well_formed(pages@[i as int]));
            }
            packed.push_page(&pages[i]);
            i = i + 1;
        }
        proof {
            lemma_fold_all(v, pages@, page_stepper());
            lemma_pages_consistent(v, pages@);
        }
        packed
    }
}

} // verus!
