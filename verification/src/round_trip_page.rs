//! Reading back a whole packed page: every check the page reader makes
//! passes, and the page it reads holds what was packed.

use vstd::prelude::*;
use crate::check::{all_finite, f32_finite, only_known, rect_finite};
use crate::content::{opt_view, range_of};
use crate::flags::{lemma_layout_reasons_known, lemma_reasons_known, LAYOUT_REASON_MASK};
use crate::pack::{
    ContentView, PageParts, empty_content, extends, fits, fold, lemma_fold_next, lemma_fold_take_extends,
    lemma_page_record_head, lemma_pages_extend, list_or_empty, page_flags, page_record, page_step,
    page_stepper, parts_well_formed,
};
use crate::page::{
    ContentArrays, Page, annotation_matches, complexity_error, form_field_matches, graphic_matches, has_bit,
    image_ref_matches, item_matches, page_error, page_head_error, page_matches, size_ok, struct_node_matches,
    LITEPARSE_PAGE_FLAG_HAS_ANNOTATIONS, LITEPARSE_PAGE_FLAG_HAS_BLOCKS, LITEPARSE_PAGE_FLAG_HAS_COMPLEXITY,
    LITEPARSE_PAGE_FLAG_HAS_CONTENT_BOUNDS, LITEPARSE_PAGE_FLAG_HAS_FORM_FIELDS,
    LITEPARSE_PAGE_FLAG_HAS_GEOMETRY, LITEPARSE_PAGE_FLAG_HAS_ROTATION,
    LITEPARSE_PAGE_FLAG_HAS_STRUCTURE_TREE, LITEPARSE_PAGE_FLAG_HAS_VECTOR_GRAPHICS, PAGE_FLAGS,
};
use crate::records::{
    PageComplexityStats, bit_if, complexity_record, COMPLEXITY_FLAGS,
    LITEPARSE_COMPLEXITY_FLAG_FULL_PAGE_IMAGE, LITEPARSE_COMPLEXITY_FLAG_HAS_LAYOUT,
    LITEPARSE_COMPLEXITY_FLAG_HAS_SUBSTANTIAL_IMAGES, LITEPARSE_COMPLEXITY_FLAG_HAS_UNCOVERED_VECTOR_AREA,
    LITEPARSE_COMPLEXITY_FLAG_IS_GARBLED, LITEPARSE_COMPLEXITY_FLAG_LAYOUT_IS_COMPLEX,
    LITEPARSE_COMPLEXITY_FLAG_NEEDS_OCR,
};
use crate::round_trip::{
    item_readable, lemma_page_items_round_trip, lemma_page_label_round_trip, read_back, same_item,
};
use crate::round_trip_parts::{
    annotation_readable, form_field_readable, graphic_readable, image_ref_readable, lemma_fold_pushes,
    lemma_page_annotations_round_trip, lemma_page_form_fields_round_trip, lemma_page_graphics_round_trip,
    lemma_page_image_refs_round_trip, lemma_page_struct_nodes_round_trip, lemma_page_vectors_round_trip,
    same_annotation, same_form_field, same_graphic, same_image_ref, same_struct_node, same_vectors,
    struct_node_readable, vectors_readable,
};
use crate::content::{BlockArrays, PositionedBlock};
use crate::content_in::{
    OwnedPages, blocks_match, indexed, page_in_error, page_in_ok, pages_error, pages_match,
};
use crate::page::lemma_first_bad;
use crate::round_trip_blocks::{block_arrays_hold, block_readable, lemma_page_blocks_round_trip, same_block};
use crate::round_trip_tree::{lemma_page_tree_round_trip, same_structure, tree_readable};

verus! {

// Complexity.
/// A page's complexity signals pass the reader's checks when their
/// fractions and areas are finite.
pub open spec fn complexity_readable(c: PageComplexityStats) -> bool {
    &&& all_finite(seq![c.text_coverage, c.image_coverage, c.largest_image_coverage, c.page_area])
    &&& (c.uncovered_vector_area matches Some(x) ==> f32_finite(x))
    &&& (c.layout matches Some(l) ==> f32_finite(l.ruled_table_coverage) && f32_finite(l.figure_coverage))
}

proof fn lemma_complexity_flags_known(a: bool, b: bool, c: bool, d: bool, e: bool, g: bool, h: bool, f: u32)
    requires
        f == bit_if(a, LITEPARSE_COMPLEXITY_FLAG_HAS_SUBSTANTIAL_IMAGES) | bit_if(b, LITEPARSE_COMPLEXITY_FLAG_FULL_PAGE_IMAGE)
            | bit_if(c, LITEPARSE_COMPLEXITY_FLAG_IS_GARBLED) | bit_if(d, LITEPARSE_COMPLEXITY_FLAG_NEEDS_OCR) | bit_if(
            e,
            LITEPARSE_COMPLEXITY_FLAG_HAS_UNCOVERED_VECTOR_AREA,
        ) | bit_if(g, LITEPARSE_COMPLEXITY_FLAG_HAS_LAYOUT) | bit_if(h, LITEPARSE_COMPLEXITY_FLAG_LAYOUT_IS_COMPLEX),
    ensures
        only_known(f, COMPLEXITY_FLAGS),
{
    assert(f & !127u32 == 0) by (bit_vector)
        requires
            f == bit_if(a, LITEPARSE_COMPLEXITY_FLAG_HAS_SUBSTANTIAL_IMAGES) | bit_if(b, LITEPARSE_COMPLEXITY_FLAG_FULL_PAGE_IMAGE)
                | bit_if(c, LITEPARSE_COMPLEXITY_FLAG_IS_GARBLED) | bit_if(d, LITEPARSE_COMPLEXITY_FLAG_NEEDS_OCR) | bit_if(
                e,
                LITEPARSE_COMPLEXITY_FLAG_HAS_UNCOVERED_VECTOR_AREA,
            ) | bit_if(g, LITEPARSE_COMPLEXITY_FLAG_HAS_LAYOUT) | bit_if(h, LITEPARSE_COMPLEXITY_FLAG_LAYOUT_IS_COMPLEX),
    ;
}

/// Packed complexity signals pass the reader's checks when readable.
pub proof fn lemma_complexity_checks(c: PageComplexityStats, where_: Seq<char>)
    requires
        complexity_readable(c),
    ensures
        complexity_error(complexity_record(c), where_) is None,
{
    let r = complexity_record(c);
    lemma_complexity_flags_known(
        c.has_substantial_images,
        c.full_page_image,
        c.is_garbled,
        c.needs_ocr,
        c.uncovered_vector_area is Some,
        c.layout is Some,
        c.layout matches Some(l) && l.is_complex,
        r.flags,
    );
    lemma_reasons_known(c.reasons@);
    let zero: u32 = 0;
    assert(f32_finite(zero) && only_known(zero, LAYOUT_REASON_MASK)) by (bit_vector)
        requires
            zero == 0,
    ;
    if let Some(l) = c.layout {
        lemma_layout_reasons_known(l.reasons@);
    }
    let vs = seq![
        r.text_coverage,
        r.image_coverage,
        r.largest_image_coverage,
        r.page_area,
        r.uncovered_vector_area,
        r.layout_ruled_table_coverage,
        r.layout_figure_coverage,
    ];
    assert forall|i: int| 0 <= i < vs.len() implies f32_finite(#[trigger] vs[i]) by {
        if i < 4 {
            assert(vs[i] == seq![c.text_coverage, c.image_coverage, c.largest_image_coverage, c.page_area][i]);
        }
    }
}

// Pages.
proof fn lemma_page_bits(
    g: bool,
    ro: bool,
    cb: bool,
    cx: bool,
    an: bool,
    ff: bool,
    st: bool,
    bl: bool,
    vg: bool,
    f: u32,
)
    requires
        f == bit_if(g, LITEPARSE_PAGE_FLAG_HAS_GEOMETRY) | bit_if(ro, LITEPARSE_PAGE_FLAG_HAS_ROTATION) | bit_if(
            cb,
            LITEPARSE_PAGE_FLAG_HAS_CONTENT_BOUNDS,
        ) | bit_if(cx, LITEPARSE_PAGE_FLAG_HAS_COMPLEXITY) | bit_if(an, LITEPARSE_PAGE_FLAG_HAS_ANNOTATIONS) | bit_if(
            ff,
            LITEPARSE_PAGE_FLAG_HAS_FORM_FIELDS,
        ) | bit_if(st, LITEPARSE_PAGE_FLAG_HAS_STRUCTURE_TREE) | bit_if(bl, LITEPARSE_PAGE_FLAG_HAS_BLOCKS) | bit_if(
            vg,
            LITEPARSE_PAGE_FLAG_HAS_VECTOR_GRAPHICS,
        ),
    ensures
        only_known(f, PAGE_FLAGS),
        has_bit(f, LITEPARSE_PAGE_FLAG_HAS_CONTENT_BOUNDS) == cb,
        has_bit(f, LITEPARSE_PAGE_FLAG_HAS_COMPLEXITY) == cx,
        has_bit(f, LITEPARSE_PAGE_FLAG_HAS_ANNOTATIONS) == an,
        has_bit(f, LITEPARSE_PAGE_FLAG_HAS_FORM_FIELDS) == ff,
        has_bit(f, LITEPARSE_PAGE_FLAG_HAS_STRUCTURE_TREE) == st,
        has_bit(f, LITEPARSE_PAGE_FLAG_HAS_VECTOR_GRAPHICS) == vg,
{
    assert(f & !511u32 == 0 && (f & 4 != 0) == cb && (f & 8 != 0) == cx && (f & 16 != 0) == an && (f & 32 != 0) == ff
        && (f & 64 != 0) == st && (f & 256 != 0) == vg) by (bit_vector)
        requires
            f == bit_if(g, LITEPARSE_PAGE_FLAG_HAS_GEOMETRY) | bit_if(ro, LITEPARSE_PAGE_FLAG_HAS_ROTATION) | bit_if(
                cb,
                LITEPARSE_PAGE_FLAG_HAS_CONTENT_BOUNDS,
            ) | bit_if(cx, LITEPARSE_PAGE_FLAG_HAS_COMPLEXITY) | bit_if(an, LITEPARSE_PAGE_FLAG_HAS_ANNOTATIONS) | bit_if(
                ff,
                LITEPARSE_PAGE_FLAG_HAS_FORM_FIELDS,
            ) | bit_if(st, LITEPARSE_PAGE_FLAG_HAS_STRUCTURE_TREE) | bit_if(bl, LITEPARSE_PAGE_FLAG_HAS_BLOCKS) | bit_if(
                vg,
                LITEPARSE_PAGE_FLAG_HAS_VECTOR_GRAPHICS,
            ),
    ;
}

/// The flags of a packed page name only known bits, one for each part it
/// has.
pub proof fn lemma_page_flags(p: PageParts)
    ensures
        only_known(page_flags(p), PAGE_FLAGS),
        has_bit(page_flags(p), LITEPARSE_PAGE_FLAG_HAS_CONTENT_BOUNDS) == (p.content_bounds is Some),
        has_bit(page_flags(p), LITEPARSE_PAGE_FLAG_HAS_COMPLEXITY) == (p.complexity is Some),
        has_bit(page_flags(p), LITEPARSE_PAGE_FLAG_HAS_ANNOTATIONS) == (p.annotations is Some),
        has_bit(page_flags(p), LITEPARSE_PAGE_FLAG_HAS_FORM_FIELDS) == (p.form_fields is Some),
        has_bit(page_flags(p), LITEPARSE_PAGE_FLAG_HAS_STRUCTURE_TREE) == (p.structure_tree is Some),
        has_bit(page_flags(p), LITEPARSE_PAGE_FLAG_HAS_VECTOR_GRAPHICS) == (p.vector_graphics is Some),
{
    lemma_page_bits(
        p.geometry is Some,
        p.geometry matches Some(g) && g.1,
        p.content_bounds is Some,
        p.complexity is Some,
        p.annotations is Some,
        p.form_fields is Some,
        p.structure_tree is Some,
        p.blocks is Some,
        p.vector_graphics is Some,
        page_flags(p),
    );
}

/// The arrays `a` a reader is handed are the packed arrays `w`.
pub open spec fn arrays_hold(a: ContentArrays, w: ContentView) -> bool {
    &&& a.pool@ == w.pool && a.items@ == w.items && a.words@ == w.words && a.char_codes@ == w.char_codes
    &&& a.graphics@ == w.graphics && a.struct_nodes@ == w.struct_nodes && a.mcids@ == w.mcids
    &&& a.image_refs@ == w.image_refs && a.annotations@ == w.annotations && a.quadpoints@ == w.quadpoints
    &&& a.form_fields@ == w.form_fields && a.strings@ == w.strings && a.structure_nodes@ == w.structure_nodes
    &&& a.structure_attributes@ == w.structure_attributes && a.vector_shapes@ == w.vector_shapes
    &&& a.vector_lines@ == w.vector_lines
}

/// A page reads back as itself when its number is 1-based and fits 32
/// bits, its size is finite and positive, and each of its parts reads
/// back (see the `*_readable` functions).
pub open spec fn page_readable(p: PageParts) -> bool {
    &&& 1 <= p.page_number <= u32::MAX
    &&& size_ok(p.width, p.height)
    &&& (p.content_bounds matches Some(b) ==> rect_finite(b))
    &&& (p.complexity matches Some(c) ==> complexity_readable(c))
    &&& read_back(p.page_label) == opt_view(p.page_label)
    &&& forall|k: int| 0 <= k < p.text_items@.len() ==> item_readable(#[trigger] p.text_items@[k])
    &&& forall|k: int| 0 <= k < p.graphics@.len() ==> graphic_readable(#[trigger] p.graphics@[k].primitive)
    &&& forall|k: int| 0 <= k < p.struct_nodes@.len() ==> struct_node_readable(#[trigger] p.struct_nodes@[k])
    &&& forall|k: int| 0 <= k < p.image_refs@.len() ==> image_ref_readable(#[trigger] p.image_refs@[k])
    &&& forall|k: int|
        0 <= k < list_or_empty(p.annotations).len() ==> annotation_readable(#[trigger] list_or_empty(p.annotations)[k])
    &&& forall|k: int|
        0 <= k < list_or_empty(p.form_fields).len() ==> form_field_readable(
            #[trigger] list_or_empty(p.form_fields)[k],
        )
    &&& parts_well_formed(p) && tree_readable(p.structure_tree)
    &&& vectors_readable(p.vector_graphics)
}

/// `o` holds what page `p` packs and the reader reads back: its number,
/// label, size, content bounds, text items, graphics, tagged nodes, image
/// objects (but for their bytes), annotations, form fields, structure tree
/// (in pre-order) and vector graphics.
pub open spec fn same_page(o: Page, p: PageParts) -> bool {
    &&& o.page_number == p.page_number
    &&& opt_view(o.page_label) == opt_view(p.page_label)
    &&& o.page_width == p.width && o.page_height == p.height
    &&& o.content_bounds == p.content_bounds
    &&& o.text_items@.len() == p.text_items@.len()
    &&& forall|k: int| 0 <= k < o.text_items@.len() ==> same_item(#[trigger] o.text_items@[k], p.text_items@[k])
    &&& o.graphics@.len() == p.graphics@.len()
    &&& forall|k: int| 0 <= k < o.graphics@.len() ==> same_graphic(#[trigger] o.graphics@[k], p.graphics@[k].primitive)
    &&& o.struct_nodes@.len() == p.struct_nodes@.len()
    &&& forall|k: int| 0 <= k < o.struct_nodes@.len() ==> same_struct_node(#[trigger] o.struct_nodes@[k], p.struct_nodes@[k])
    &&& o.image_refs@.len() == p.image_refs@.len()
    &&& forall|k: int| 0 <= k < o.image_refs@.len() ==> same_image_ref(#[trigger] o.image_refs@[k], p.image_refs@[k])
    &&& (o.annotations is Some <==> p.annotations is Some)
    &&& (o.annotations matches Some(x) ==> x@.len() == list_or_empty(p.annotations).len() && forall|k: int|
        0 <= k < x@.len() ==> same_annotation(#[trigger] x@[k], list_or_empty(p.annotations)[k]))
    &&& (o.form_fields is Some <==> p.form_fields is Some)
    &&& (o.form_fields matches Some(x) ==> x@.len() == list_or_empty(p.form_fields).len() && forall|k: int|
        0 <= k < x@.len() ==> same_form_field(#[trigger] x@[k], list_or_empty(p.form_fields)[k]))
    &&& (o.structure_tree is Some <==> p.structure_tree is Some)
    &&& (o.structure_tree matches Some(t) ==> p.structure_tree matches Some(pt) && same_structure(t, pt))
    &&& (o.vector_graphics is Some <==> p.vector_graphics is Some)
    &&& (o.vector_graphics matches Some(g) ==> p.vector_graphics matches Some(pg) && same_vectors(g, pg))
}

#[verifier::spinoff_prover]
#[verifier::rlimit(100)]
proof fn lemma_page_checks(v: ContentView, p: PageParts, w: ContentView, a: ContentArrays, where_: Seq<char>)
    requires
        extends(page_step(v, p), w),
        fits(w),
        page_readable(p),
        arrays_hold(a, w),
    ensures
        page_error(a, page_record(v, p), where_) is None,
{
    let r = page_record(v, p);
    lemma_page_record_head(v, p);
    lemma_page_flags(p);
    if let Some(c) = p.complexity {
        lemma_complexity_checks(c, where_);
    }
    assert(page_head_error(r, where_) is None);
    lemma_page_items_round_trip(v, p, w, where_, Seq::empty());
    lemma_page_graphics_round_trip(v, p, w, where_, Seq::empty());
    lemma_page_struct_nodes_round_trip(v, p, w, where_, Seq::empty());
    lemma_page_image_refs_round_trip(v, p, w, where_, Seq::empty());
    lemma_page_annotations_round_trip(v, p, w, where_, Seq::empty());
    lemma_page_form_fields_round_trip(v, p, w, where_, Seq::empty());
    lemma_page_tree_round_trip(v, p, w, where_, vstd::pervasive::arbitrary());
    lemma_page_vectors_round_trip(v, p, w, where_, vstd::pervasive::arbitrary());
    lemma_page_label_round_trip(v, p, w);
}

#[verifier::spinoff_prover]
#[verifier::rlimit(100)]
proof fn lemma_values_head(v: ContentView, p: PageParts, w: ContentView, a: ContentArrays, o: Page)
    requires
        extends(page_step(v, p), w),
        fits(w),
        page_readable(p),
        arrays_hold(a, w),
        page_matches(o, a, page_record(v, p)),
    ensures
        o.page_number == p.page_number,
        opt_view(o.page_label) == opt_view(p.page_label),
        o.page_width == p.width && o.page_height == p.height,
        o.content_bounds == p.content_bounds,
{
    lemma_page_record_head(v, p);
    lemma_page_flags(p);
    lemma_page_label_round_trip(v, p, w);
}

#[verifier::spinoff_prover]
#[verifier::rlimit(60)]
proof fn lemma_values_items(v: ContentView, p: PageParts, w: ContentView, o: Page)
    requires
        extends(page_step(v, p), w),
        fits(w),
        page_readable(p),
        ({
            let r = page_record(v, p);
            let rs = range_of(w.items, r.item_offset, r.item_count);
            &&& o.text_items@.len() == rs.len()
            &&& forall|k: int|
                0 <= k < rs.len() ==> item_matches(#[trigger] o.text_items@[k], w.pool, w.words, w.char_codes, rs[k])
        }),
    ensures
        o.text_items@.len() == p.text_items@.len(),
        forall|k: int| 0 <= k < o.text_items@.len() ==> same_item(#[trigger] o.text_items@[k], p.text_items@[k]),
{
    lemma_page_items_round_trip(v, p, w, Seq::empty(), o.text_items@);
}

#[verifier::spinoff_prover]
#[verifier::rlimit(60)]
proof fn lemma_values_graphics(v: ContentView, p: PageParts, w: ContentView, o: Page)
    requires
        extends(page_step(v, p), w),
        fits(w),
        page_readable(p),
        ({
            let r = page_record(v, p);
            let rs = range_of(w.graphics, r.graphic_offset, r.graphic_count);
            &&& o.graphics@.len() == rs.len()
            &&& forall|k: int| 0 <= k < rs.len() ==> graphic_matches(#[trigger] o.graphics@[k], rs[k])
        }),
    ensures
        o.graphics@.len() == p.graphics@.len(),
        forall|k: int| 0 <= k < o.graphics@.len() ==> same_graphic(#[trigger] o.graphics@[k], p.graphics@[k].primitive),
{
    lemma_page_graphics_round_trip(v, p, w, Seq::empty(), o.graphics@);
}

#[verifier::spinoff_prover]
#[verifier::rlimit(60)]
proof fn lemma_values_struct_nodes(v: ContentView, p: PageParts, w: ContentView, o: Page)
    requires
        extends(page_step(v, p), w),
        fits(w),
        page_readable(p),
        ({
            let r = page_record(v, p);
            let rs = range_of(w.struct_nodes, r.struct_node_offset, r.struct_node_count);
            &&& o.struct_nodes@.len() == rs.len()
            &&& forall|k: int| 0 <= k < rs.len() ==> struct_node_matches(#[trigger] o.struct_nodes@[k], w.pool, w.mcids, rs[k])
        }),
    ensures
        o.struct_nodes@.len() == p.struct_nodes@.len(),
        forall|k: int| 0 <= k < o.struct_nodes@.len() ==> same_struct_node(#[trigger] o.struct_nodes@[k], p.struct_nodes@[k]),
{
    lemma_page_struct_nodes_round_trip(v, p, w, Seq::empty(), o.struct_nodes@);
}

#[verifier::spinoff_prover]
#[verifier::rlimit(60)]
proof fn lemma_values_image_refs(v: ContentView, p: PageParts, w: ContentView, o: Page)
    requires
        extends(page_step(v, p), w),
        fits(w),
        page_readable(p),
        ({
            let r = page_record(v, p);
            let rs = range_of(w.image_refs, r.image_ref_offset, r.image_ref_count);
            &&& o.image_refs@.len() == rs.len()
            &&& forall|k: int| 0 <= k < rs.len() ==> image_ref_matches(#[trigger] o.image_refs@[k], w.pool, rs[k])
        }),
    ensures
        o.image_refs@.len() == p.image_refs@.len(),
        forall|k: int| 0 <= k < o.image_refs@.len() ==> same_image_ref(#[trigger] o.image_refs@[k], p.image_refs@[k]),
{
    lemma_page_image_refs_round_trip(v, p, w, Seq::empty(), o.image_refs@);
}

#[verifier::spinoff_prover]
#[verifier::rlimit(60)]
proof fn lemma_values_annotations(v: ContentView, p: PageParts, w: ContentView, o: Page)
    requires
        extends(page_step(v, p), w),
        fits(w),
        page_readable(p),
        ({
            let r = page_record(v, p);
            let rs = range_of(w.annotations, r.annotation_offset, r.annotation_count);
            &&& (o.annotations is Some <==> has_bit(r.flags, LITEPARSE_PAGE_FLAG_HAS_ANNOTATIONS))
            &&& (o.annotations matches Some(x) ==> x@.len() == rs.len() && forall|k: int|
                0 <= k < rs.len() ==> annotation_matches(#[trigger] x@[k], w.pool, w.quadpoints, rs[k]))
        }),
    ensures
        o.annotations is Some <==> p.annotations is Some,
        o.annotations matches Some(x) ==> x@.len() == list_or_empty(p.annotations).len() && forall|k: int|
            0 <= k < x@.len() ==> same_annotation(#[trigger] x@[k], list_or_empty(p.annotations)[k]),
{
    lemma_page_record_head(v, p);
    lemma_page_flags(p);
    if let Some(x) = o.annotations {
        lemma_page_annotations_round_trip(v, p, w, Seq::empty(), x@);
    }
}

#[verifier::spinoff_prover]
#[verifier::rlimit(60)]
proof fn lemma_values_form_fields(v: ContentView, p: PageParts, w: ContentView, o: Page)
    requires
        extends(page_step(v, p), w),
        fits(w),
        page_readable(p),
        ({
            let r = page_record(v, p);
            let rs = range_of(w.form_fields, r.form_field_offset, r.form_field_count);
            &&& (o.form_fields is Some <==> has_bit(r.flags, LITEPARSE_PAGE_FLAG_HAS_FORM_FIELDS))
            &&& (o.form_fields matches Some(x) ==> x@.len() == rs.len() && forall|k: int|
                0 <= k < rs.len() ==> form_field_matches(#[trigger] x@[k], w.pool, w.strings, rs[k]))
        }),
    ensures
        o.form_fields is Some <==> p.form_fields is Some,
        o.form_fields matches Some(x) ==> x@.len() == list_or_empty(p.form_fields).len() && forall|k: int|
            0 <= k < x@.len() ==> same_form_field(#[trigger] x@[k], list_or_empty(p.form_fields)[k]),
{
    lemma_page_record_head(v, p);
    lemma_page_flags(p);
    if let Some(x) = o.form_fields {
        lemma_page_form_fields_round_trip(v, p, w, Seq::empty(), x@);
    }
}

#[verifier::spinoff_prover]
#[verifier::rlimit(100)]
proof fn lemma_values_tree(v: ContentView, p: PageParts, w: ContentView, a: ContentArrays, o: Page)
    requires
        extends(page_step(v, p), w),
        fits(w),
        page_readable(p),
        arrays_hold(a, w),
        page_matches(o, a, page_record(v, p)),
    ensures
        o.structure_tree is Some <==> p.structure_tree is Some,
        o.structure_tree matches Some(t) ==> p.structure_tree matches Some(pt) && same_structure(t, pt),
        o.vector_graphics is Some <==> p.vector_graphics is Some,
        o.vector_graphics matches Some(g) ==> p.vector_graphics matches Some(pg) && same_vectors(g, pg),
{
    lemma_page_record_head(v, p);
    lemma_page_flags(p);
    if let Some(t) = o.structure_tree {
        lemma_page_tree_round_trip(v, p, w, Seq::empty(), t);
    }
    if let Some(g) = o.vector_graphics {
        lemma_page_vectors_round_trip(v, p, w, Seq::empty(), g);
    }
}

/// Reading back a packed page: handed the arrays that packing page `p`
/// onto arrays `v` gave, the page reader makes no complaint about its
/// record, and the page it reads holds what `p` packed, when `p` reads
/// back (see `page_readable`).
pub proof fn lemma_page_round_trip(v: ContentView, p: PageParts, w: ContentView, a: ContentArrays, where_: Seq<char>, o: Page)
    requires
        extends(page_step(v, p), w),
        fits(w),
        page_readable(p),
        arrays_hold(a, w),
    ensures
        page_error(a, page_record(v, p), where_) is None,
        page_matches(o, a, page_record(v, p)) ==> same_page(o, p),
{
    lemma_page_checks(v, p, w, a, where_);
    if page_matches(o, a, page_record(v, p)) {
        lemma_values_head(v, p, w, a, o);
        lemma_values_items(v, p, w, o);
        lemma_values_graphics(v, p, w, o);
        lemma_values_struct_nodes(v, p, w, o);
        lemma_values_image_refs(v, p, w, o);
        lemma_values_annotations(v, p, w, o);
        lemma_values_form_fields(v, p, w, o);
        lemma_values_tree(v, p, w, a, o);
    }
}

/// Page `k` of `pages`, packed one after the other onto empty arrays: its
/// record, and the arrays it was packed onto, which the document's arrays
/// extend.
pub proof fn lemma_document_page(pages: Seq<PageParts>, k: int)
    requires
        0 <= k < pages.len(),
    ensures
        ({
            let w = fold(empty_content(), pages, page_stepper());
            let vk = fold(empty_content(), pages.take(k), page_stepper());
            &&& w.pages.len() == pages.len()
            &&& w.pages[k] == page_record(vk, pages[k])
            &&& extends(page_step(vk, pages[k]), w)
        }),
{
    let f = page_stepper();
    let e = empty_content();
    let w = fold(e, pages, f);
    let vk = fold(e, pages.take(k), f);
    lemma_pages_extend();
    let arr = |x: ContentView| x.pages;
    let rec = |x: ContentView, p: PageParts| page_record(x, p);
    lemma_fold_pushes(e, pages, f, arr, rec);
    assert(arr(w)[e.pages.len() + k] == rec(vk, pages[k]));
    lemma_fold_next(e, pages, f, k);
    lemma_fold_take_extends(e, pages, f, k + 1);
}

/// Reading back a packed document: handed the arrays that packing
/// `pages` one after the other onto empty arrays gave, the page reader
/// makes no complaint about the record of page `k`, and the page it reads
/// from that record holds what page `k` packed, when that page reads back
/// (see `page_readable`).
pub proof fn lemma_document_round_trip(pages: Seq<PageParts>, a: ContentArrays, k: int, where_: Seq<char>, o: Page)
    requires
        fits(fold(empty_content(), pages, page_stepper())),
        arrays_hold(a, fold(empty_content(), pages, page_stepper())),
        0 <= k < pages.len(),
        page_readable(pages[k]),
    ensures
        ({
            let w = fold(empty_content(), pages, page_stepper());
            &&& w.pages.len() == pages.len()
            &&& page_error(a, w.pages[k], where_) is None
            &&& page_matches(o, a, w.pages[k]) ==> same_page(o, pages[k])
        }),
{
    let w = fold(empty_content(), pages, page_stepper());
    let vk = fold(empty_content(), pages.take(k), page_stepper());
    lemma_document_page(pages, k);
    lemma_page_round_trip(vk, pages[k], w, a, where_, o);
}

/// Whether a page and its layout blocks all read back.
pub open spec fn page_blocks_readable(p: PageParts) -> bool {
    &&& page_readable(p)
    &&& forall|k: int| 0 <= k < list_or_empty(p.blocks).len() ==> block_readable(#[trigger] list_or_empty(p.blocks)[k])
}

/// Page `k` of a packed document with its blocks reads back: no complaint
/// from the content reader about its record, and what is read from it
/// holds what the page packed and the blocks its layout blocks describe.
#[verifier::spinoff_prover]
#[verifier::rlimit(60)]
proof fn lemma_document_page_in(
    pages: Seq<PageParts>,
    a: ContentArrays,
    ba: BlockArrays,
    k: int,
    op: Page,
    ob: Seq<PositionedBlock>,
)
    requires
        fits(fold(empty_content(), pages, page_stepper())),
        arrays_hold(a, fold(empty_content(), pages, page_stepper())),
        block_arrays_hold(ba, fold(empty_content(), pages, page_stepper())),
        0 <= k < pages.len(),
        page_blocks_readable(pages[k]),
    ensures
        ({
            let w = fold(empty_content(), pages, page_stepper());
            &&& w.pages.len() == pages.len()
            &&& page_in_error(a, ba, w.blocks, w.pages[k], k as nat) is None
            &&& page_matches(op, a, w.pages[k]) ==> same_page(op, pages[k])
            &&& blocks_match(ob, ba, w.blocks, w.pages[k].block_offset, w.pages[k].block_count) ==> {
                &&& ob.len() == list_or_empty(pages[k].blocks).len()
                &&& forall|j: int| 0 <= j < ob.len() ==> same_block(#[trigger] ob[j], list_or_empty(pages[k].blocks)[j])
            }
        }),
{
    let w = fold(empty_content(), pages, page_stepper());
    let vk = fold(empty_content(), pages.take(k), page_stepper());
    lemma_document_page(pages, k);
    lemma_page_round_trip(vk, pages[k], w, a, indexed("pages"@, k as nat), op);
    lemma_page_blocks_round_trip(vk, pages[k], w, ba, ob);
}

proof fn lemma_document_page_len(pages: Seq<PageParts>)
    ensures
        fold(empty_content(), pages, page_stepper()).pages.len() == pages.len(),
{
    if pages.len() > 0 {
        lemma_document_page(pages, 0);
    }
}

#[verifier::spinoff_prover]
#[verifier::rlimit(60)]
proof fn lemma_pages_checks(pages: Seq<PageParts>, a: ContentArrays, ba: BlockArrays)
    requires
        fits(fold(empty_content(), pages, page_stepper())),
        arrays_hold(a, fold(empty_content(), pages, page_stepper())),
        block_arrays_hold(ba, fold(empty_content(), pages, page_stepper())),
        forall|k: int| 0 <= k < pages.len() ==> page_blocks_readable(#[trigger] pages[k]),
    ensures
        fold(empty_content(), pages, page_stepper()).pages.len() == pages.len(),
        pages_error(
            a,
            ba,
            fold(empty_content(), pages, page_stepper()).blocks,
            fold(empty_content(), pages, page_stepper()).pages,
        ) is None,
{
    let w = fold(empty_content(), pages, page_stepper());
    if pages.len() > 0 {
        lemma_document_page(pages, 0);
    }
    let ok = page_in_ok(a, ba, w.blocks, w.pages);
    assert forall|k: int| 0 <= k < w.pages.len() implies #[trigger] ok(k) by {
        lemma_document_page_in(pages, a, ba, k, vstd::pervasive::arbitrary(), Seq::empty());
    }
    lemma_first_bad(ok, w.pages.len() as int);
}

#[verifier::spinoff_prover]
#[verifier::rlimit(60)]
proof fn lemma_pages_value_at(pages: Seq<PageParts>, a: ContentArrays, ba: BlockArrays, o: OwnedPages, k: int)
    requires
        fits(fold(empty_content(), pages, page_stepper())),
        arrays_hold(a, fold(empty_content(), pages, page_stepper())),
        block_arrays_hold(ba, fold(empty_content(), pages, page_stepper())),
        page_blocks_readable(pages[k]),
        0 <= k < pages.len(),
        pages_match(
            o,
            a,
            ba,
            fold(empty_content(), pages, page_stepper()).blocks,
            fold(empty_content(), pages, page_stepper()).pages,
        ),
    ensures
        same_page(o.pages@[k], pages[k]),
        o.page_blocks@[k]@.len() == list_or_empty(pages[k].blocks).len(),
        forall|j: int|
            0 <= j < o.page_blocks@[k]@.len() ==> same_block(
                #[trigger] o.page_blocks@[k]@[j],
                list_or_empty(pages[k].blocks)[j],
            ),
{
    let w = fold(empty_content(), pages, page_stepper());
    lemma_document_page(pages, k);
    assert(page_matches(o.pages@[k], a, w.pages[k]));
    assert(blocks_match(o.page_blocks@[k]@, ba, w.blocks, w.pages[k].block_offset, w.pages[k].block_count));
    lemma_document_page_in(pages, a, ba, k, o.pages@[k], o.page_blocks@[k]@);
}

/// `op` and `ob` hold what page `p` packed and the blocks its layout
/// blocks describe.
pub open spec fn page_and_blocks_read(op: Page, ob: Seq<PositionedBlock>, p: PageParts) -> bool {
    &&& same_page(op, p)
    &&& ob.len() == list_or_empty(p.blocks).len()
    &&& forall|j: int| 0 <= j < ob.len() ==> same_block(#[trigger] ob[j], list_or_empty(p.blocks)[j])
}

/// Reading back every page of a packed document with its blocks: handed
/// the arrays that packing `pages` one after the other onto empty arrays
/// gave, the content reader makes no complaint about any page, and what
/// it reads holds, page by page, what each page packed and the blocks its
/// layout blocks describe, when every page reads back.
#[verifier::spinoff_prover]
#[verifier::rlimit(60)]
pub proof fn lemma_pages_round_trip(pages: Seq<PageParts>, a: ContentArrays, ba: BlockArrays, o: OwnedPages)
    requires
        fits(fold(empty_content(), pages, page_stepper())),
        arrays_hold(a, fold(empty_content(), pages, page_stepper())),
        block_arrays_hold(ba, fold(empty_content(), pages, page_stepper())),
        forall|k: int| 0 <= k < pages.len() ==> page_blocks_readable(#[trigger] pages[k]),
    ensures
        ({
            let w = fold(empty_content(), pages, page_stepper());
            &&& pages_error(a, ba, w.blocks, w.pages) is None
            &&& pages_match(o, a, ba, w.blocks, w.pages) ==> {
                &&& o.pages@.len() == pages.len() && o.page_blocks@.len() == pages.len()
                &&& forall|k: int|
                    0 <= k < pages.len() ==> #[trigger] page_and_blocks_read(o.pages@[k], o.page_blocks@[k]@, pages[k])
            }
        }),
{
    let w = fold(empty_content(), pages, page_stepper());
    lemma_pages_checks(pages, a, ba);
    if pages_match(o, a, ba, w.blocks, w.pages) {
        lemma_document_page_len(pages);
        assert forall|k: int| 0 <= k < pages.len() implies #[trigger] page_and_blocks_read(
            o.pages@[k],
            o.page_blocks@[k]@,
            pages[k],
        ) by {
            lemma_pages_value_at(pages, a, ba, o, k);
        }
    }
}

} // verus!
