//! Reading back the graphics, tagged nodes and image objects of a packed
//! page.

use vstd::prelude::*;
use vstd::utf8::encode_utf8;
use crate::check::{LiteParseRect, all_finite, f32_finite, only_known, range_fits, rect_finite};
use crate::content::{lemma_first_fail, opt_view, range_of, str_ok, strs_ok, text_or_empty, texts_of};
use crate::pool::LiteParseStr;
use crate::pack::{
    ContentView, PageParts, PlacedGraphic, annotation_step, annotation_stepper, block_stepper, content_parts,
    extends, fits, fold, form_field_step, form_field_stepper, graphic_record, graphic_stepper, images_step,
    is_prefix, item_stepper, lemma_content_to_page, lemma_extends_fits, lemma_extends_trans,
    lemma_fold_take_extends, lemma_prefix_trans, lemma_simple_steps_extend, lemma_vectors_to_page,
    line_record, list_or_empty, opt_color, page_record, page_step, pooled, shape_record, struct_node_step,
    struct_node_stepper, vectors_step,
};
use crate::packing::{PackFrom, all_appended};
use crate::page::{
    DocumentAnnotation, FormField, GraphicPrimitive, ImageRef, LiteParseImageRef, LiteParseVectorLine,
    LiteParseVectorShape, StructNode, VectorGraphics, VectorLine, VectorShape, annotation_error,
    annotation_matches, annotations_error, form_field_error, form_field_matches, form_fields_error,
    graphic_error, graphic_matches, graphics_error, image_ref_error, image_ref_matches, image_refs_error,
    lemma_first_bad, line_error, line_matches, place_of, rects_ok, shape_error, shape_matches,
    struct_node_error, struct_node_matches, struct_nodes_error, texts, vector_error, vector_matches,
    ANNOTATION_FLAGS, FORM_FIELD_FLAGS, GRAPHIC_FLAGS, LITEPARSE_ANNOTATION_FLAG_HAS_RECT,
    LITEPARSE_FORM_FIELD_FLAG_CHECKED, LITEPARSE_FORM_FIELD_FLAG_HAS_CHECKED,
    LITEPARSE_FORM_FIELD_FLAG_HAS_CONTROL_COUNT, LITEPARSE_FORM_FIELD_FLAG_HAS_CONTROL_INDEX,
    LITEPARSE_FORM_FIELD_FLAG_HAS_OBJECT_NUMBER, LITEPARSE_FORM_FIELD_FLAG_HAS_RECT,
    LITEPARSE_GRAPHIC_FLAG_HAS_FILL_COLOR, LITEPARSE_GRAPHIC_FLAG_HAS_STROKE_COLOR,
    LITEPARSE_STRUCT_NODE_FLAG_HAS_BBOX, LITEPARSE_VECTOR_FLAG_FILL, LITEPARSE_VECTOR_FLAG_HAS_CURVE,
    LITEPARSE_VECTOR_FLAG_HAS_FILL_COLOR, LITEPARSE_VECTOR_FLAG_HAS_STROKE_COLOR,
    LITEPARSE_VECTOR_FLAG_HAS_STROKE_WIDTH, LITEPARSE_VECTOR_FLAG_STROKE, STRUCT_NODE_FLAGS, VECTOR_FLAGS,
};
use crate::records::{bit_if, opt_bytes};
use crate::round_trip::{canonical_color, lemma_color, lemma_read_str, read_back};

verus! {

/// Folding a step that pushes one record onto array `arr` leaves record
/// `k` at `arr`'s old length plus `k`, as the step made it from the
/// arrays before it.
pub proof fn lemma_fold_pushes<T, R>(
    v: ContentView,
    xs: Seq<T>,
    f: spec_fn(ContentView, T) -> ContentView,
    arr: spec_fn(ContentView) -> Seq<R>,
    rec: spec_fn(ContentView, T) -> R,
)
    requires
        forall|w: ContentView, x: T| #[trigger] arr(f(w, x)) == arr(w).push(rec(w, x)),
    ensures
        arr(fold(v, xs, f)).len() == arr(v).len() + xs.len(),
        forall|k: int|
            0 <= k < xs.len() ==> #[trigger] arr(fold(v, xs, f))[arr(v).len() + k] == rec(
                fold(v, xs.take(k), f),
                xs[k],
            ),
    decreases xs.len(),
{
    if xs.len() > 0 {
        let pre = xs.drop_last();
        lemma_fold_pushes(v, pre, f, arr, rec);
        let w = fold(v, pre, f);
        assert(arr(f(w, xs.last())) == arr(w).push(rec(w, xs.last())));
        assert forall|k: int|
            0 <= k < xs.len() implies #[trigger] arr(fold(v, xs, f))[arr(v).len() + k] == rec(
                fold(v, xs.take(k), f),
                xs[k],
            ) by {
            if k < pre.len() {
                assert(pre.take(k) =~= xs.take(k));
            } else {
                assert(xs.take(k) =~= pre);
            }
        }
    }
}

// Graphics.
/// A graphic reads back as itself when its coordinates are finite and its
/// colours are spelled as packing prints them.
pub open spec fn graphic_readable(g: GraphicPrimitive) -> bool {
    match g {
        GraphicPrimitive::Stroke { x1, y1, x2, y2, color, width } => all_finite(seq![x1, y1, x2, y2, width])
            && canonical_color(color),
        GraphicPrimitive::Rect { bbox, fill, stroke } => rect_finite(bbox) && canonical_color(fill)
            && canonical_color(stroke),
    }
}

pub open spec fn same_graphic(a: GraphicPrimitive, b: GraphicPrimitive) -> bool {
    match (a, b) {
        (
            GraphicPrimitive::Stroke { x1, y1, x2, y2, color, width },
            GraphicPrimitive::Stroke { x1: bx1, y1: by1, x2: bx2, y2: by2, color: bc, width: bw },
        ) => x1 == bx1 && y1 == by1 && x2 == bx2 && y2 == by2 && opt_view(color) == opt_view(bc)
            && width == bw,
        (GraphicPrimitive::Rect { bbox, fill, stroke }, GraphicPrimitive::Rect { bbox: bb, fill: bf, stroke: bs }) => bbox
            == bb && opt_view(fill) == opt_view(bf) && opt_view(stroke) == opt_view(bs),
        _ => false,
    }
}

proof fn lemma_two_bits(a: bool, b: bool, f: u32)
    requires
        f == bit_if(a, LITEPARSE_GRAPHIC_FLAG_HAS_FILL_COLOR) | bit_if(b, LITEPARSE_GRAPHIC_FLAG_HAS_STROKE_COLOR),
    ensures
        only_known(f, GRAPHIC_FLAGS),
        (f & LITEPARSE_GRAPHIC_FLAG_HAS_FILL_COLOR != 0) == a,
        (f & LITEPARSE_GRAPHIC_FLAG_HAS_STROKE_COLOR != 0) == b,
{
    assert(f & !3u32 == 0 && (f & 1 != 0) == a && (f & 2 != 0) == b) by (bit_vector)
        requires
            f == bit_if(a, LITEPARSE_GRAPHIC_FLAG_HAS_FILL_COLOR) | bit_if(b, LITEPARSE_GRAPHIC_FLAG_HAS_STROKE_COLOR),
    ;
}

/// A packed graphic passes the reader's checks and reads back as itself,
/// when readable.
pub proof fn lemma_graphic_round_trip(g: GraphicPrimitive, bounds: LiteParseRect, what: Seq<char>, o: GraphicPrimitive)
    requires
        graphic_readable(g),
    ensures
        graphic_error(graphic_record(g, bounds), what) is None,
        graphic_matches(o, graphic_record(g, bounds)) ==> same_graphic(o, g),
{
    let r = graphic_record(g, bounds);
    match g {
        GraphicPrimitive::Stroke { x1, y1, x2, y2, color, width } => {
            lemma_color(color);
            let c = opt_color(color).1;
            let f = r.flags;
            assert(f == bit_if(false, LITEPARSE_GRAPHIC_FLAG_HAS_FILL_COLOR) | bit_if(c, LITEPARSE_GRAPHIC_FLAG_HAS_STROKE_COLOR)) by (bit_vector)
                requires
                    f == bit_if(c, LITEPARSE_GRAPHIC_FLAG_HAS_STROKE_COLOR),
            ;
            lemma_two_bits(false, c, f);
        },
        GraphicPrimitive::Rect { bbox, fill, stroke } => {
            lemma_color(fill);
            lemma_color(stroke);
            lemma_two_bits(opt_color(fill).1, opt_color(stroke).1, r.flags);
        },
    }
}

// Tagged nodes.
/// A tagged node reads back as itself when its box is finite and its
/// alternate text, if any, is not empty.
pub open spec fn struct_node_readable(n: StructNode) -> bool {
    &&& (n.bbox matches Some(b) ==> rect_finite(b))
    &&& read_back(n.alt_text) == opt_view(n.alt_text)
}

pub open spec fn same_struct_node(a: StructNode, b: StructNode) -> bool {
    a.role@ == b.role@ && a.mcids@ == b.mcids@ && a.bbox == b.bbox && opt_view(a.alt_text) == opt_view(
        b.alt_text,
    )
}

proof fn lemma_one_bit(a: bool, f: u32)
    requires
        f == bit_if(a, LITEPARSE_STRUCT_NODE_FLAG_HAS_BBOX),
    ensures
        only_known(f, STRUCT_NODE_FLAGS),
        (f & LITEPARSE_STRUCT_NODE_FLAG_HAS_BBOX != 0) == a,
{
    assert(f & !1u32 == 0 && (f & 1 != 0) == a) by (bit_vector)
        requires
            f == bit_if(a, LITEPARSE_STRUCT_NODE_FLAG_HAS_BBOX),
    ;
}

proof fn lemma_extends_nodes(a: ContentView, b: ContentView)
    requires
        extends(a, b),
    ensures
        is_prefix(a.pool, b.pool),
        is_prefix(a.mcids, b.mcids),
        is_prefix(a.struct_nodes, b.struct_nodes),
        is_prefix(a.image_refs, b.image_refs),
        is_prefix(a.graphics, b.graphics),
{
    reveal(extends);
}

/// A tagged node packed onto arrays `v`, in arrays `w` that extend what
/// packing it gave, passes the reader's checks and reads back as itself,
/// when readable.
pub proof fn lemma_struct_node_round_trip(v: ContentView, n: StructNode, w: ContentView, what: Seq<char>, o: StructNode)
    requires
        extends(struct_node_step(v, n), w),
        crate::pack::fits(struct_node_step(v, n)),
        struct_node_readable(n),
    ensures
        struct_node_error(w.pool, w.mcids, struct_node_step(v, n).struct_nodes.last(), what) is None,
        struct_node_matches(o, w.pool, w.mcids, struct_node_step(v, n).struct_nodes.last()) ==> same_struct_node(o, n),
{
    let s = struct_node_step(v, n);
    let r = s.struct_nodes.last();
    lemma_extends_nodes(s, w);
    let p0 = v.pool;
    let p1 = p0 + encode_utf8(n.role@);
    assert(s.pool =~= p1 + opt_bytes(n.alt_text));
    lemma_prefix_trans(p1, s.pool, w.pool);
    lemma_read_str(w.pool, p0, Some(n.role));
    lemma_read_str(w.pool, p1, n.alt_text);
    lemma_one_bit(n.bbox is Some, r.flags);
    assert(range_of(w.mcids, r.mcid_offset, r.mcid_count) =~= n.mcids@);
}

// Image objects.
/// An image object reads back as itself, but for the bytes the records do
/// not carry, when its box and rotation are finite and its object index
/// fits in 32 bits.
pub open spec fn image_ref_readable(m: ImageRef) -> bool {
    rect_finite(m.bbox) && all_finite(seq![m.rotation]) && m.obj_index <= u32::MAX
}

pub open spec fn same_image_ref(a: ImageRef, b: ImageRef) -> bool {
    &&& a.id@ == b.id@ && a.bbox == b.bbox && a.obj_index == b.obj_index && a.format@ == b.format@
    &&& a.pixel_width == b.pixel_width && a.pixel_height == b.pixel_height && a.rotation == b.rotation
    &&& a.bits_per_pixel == b.bits_per_pixel && a.colorspace == b.colorspace
}

/// Image object `k` of `ms` pooled from `pre` on, in a pool that keeps
/// those bytes, passes the reader's checks and reads back as itself, when
/// readable.
pub proof fn lemma_image_ref_round_trip(pre: Seq<u8>, ms: Seq<ImageRef>, k: int, pool: Seq<u8>, what: Seq<char>, o: ImageRef)
    requires
        0 <= k < ms.len(),
        is_prefix(pre + all_appended::<ImageRef, LiteParseImageRef>(ms), pool),
        pool.len() <= u32::MAX,
        image_ref_readable(ms[k]),
    ensures
        image_ref_error(pool, pooled::<ImageRef, LiteParseImageRef>(pre.len(), ms)[k], what) is None,
        image_ref_matches(o, pool, pooled::<ImageRef, LiteParseImageRef>(pre.len(), ms)[k]) ==> same_image_ref(o, ms[k]),
{
    let m = ms[k];
    crate::round_trip::lemma_appended_at::<ImageRef, LiteParseImageRef>(pre, ms, k);
    let q = pre + all_appended::<ImageRef, LiteParseImageRef>(ms.take(k));
    lemma_prefix_trans(q + LiteParseImageRef::appended(&m), pre + all_appended::<ImageRef, LiteParseImageRef>(ms), pool);
    let q1 = q + encode_utf8(m.id@);
    assert(q + LiteParseImageRef::appended(&m) =~= q1 + encode_utf8(m.format@));
    crate::round_trip::lemma_prefix_add(q1, encode_utf8(m.format@));
    lemma_prefix_trans(q1, q1 + encode_utf8(m.format@), pool);
    lemma_read_str(pool, q, Some(m.id));
    lemma_read_str(pool, q1, Some(m.format));
}

// Pages.
proof fn lemma_extends_graphics(a: ContentView, b: ContentView)
    requires
        extends(a, b),
    ensures
        is_prefix(a.graphics, b.graphics),
{
    reveal(extends);
}

/// Where a packed page's graphics stand, and what their records hold.
proof fn lemma_page_graphics_at(v: ContentView, p: PageParts, w: ContentView)
    requires
        extends(page_step(v, p), w),
        fits(w),
    ensures
        ({
            let v1 = fold(v, p.text_items@, item_stepper());
            let r = page_record(v, p);
            let gs = p.graphics@;
            &&& r.graphic_offset == v1.graphics.len()
            &&& r.graphic_count == gs.len()
            &&& v1.graphics.len() + gs.len() <= w.graphics.len()
            &&& forall|k: int|
                0 <= k < gs.len() ==> #[trigger] w.graphics[v1.graphics.len() + k] == graphic_record(
                    gs[k].primitive,
                    gs[k].bounds,
                )
        }),
{
    reveal(page_record);
    let v1 = fold(v, p.text_items@, item_stepper());
    let gs = p.graphics@;
    let arr = |x: ContentView| x.graphics;
    let rec = |x: ContentView, g: PlacedGraphic| graphic_record(g.primitive, g.bounds);
    lemma_fold_pushes(v1, gs, graphic_stepper(), arr, rec);
    let v2 = fold(v1, gs, graphic_stepper());
    lemma_content_to_page(v, p);
    lemma_extends_trans(v2, page_step(v, p), w);
    lemma_extends_graphics(v2, w);
    assert forall|k: int| 0 <= k < gs.len() implies #[trigger] w.graphics[v1.graphics.len() + k] == graphic_record(
        gs[k].primitive,
        gs[k].bounds,
    ) by {
        assert(arr(v2)[v1.graphics.len() + k] == rec(fold(v1, gs.take(k), graphic_stepper()), gs[k]));
    }
}

/// Reading back the graphics of a packed page: its graphic range passes
/// every check the reader makes, and the graphics read from it are the
/// page's own, in order, when those read back (see `graphic_readable`).
pub proof fn lemma_page_graphics_round_trip(v: ContentView, p: PageParts, w: ContentView, where_: Seq<char>, os: Seq<GraphicPrimitive>)
    requires
        extends(page_step(v, p), w),
        fits(w),
        forall|k: int| 0 <= k < p.graphics@.len() ==> graphic_readable(#[trigger] p.graphics@[k].primitive),
    ensures
        ({
            let r = page_record(v, p);
            &&& r.graphic_count == p.graphics@.len() && r.graphic_offset + r.graphic_count <= w.graphics.len()
            &&& graphics_error(w.graphics, r.graphic_offset, r.graphic_count, where_) is None
            &&& (os.len() == r.graphic_count && (forall|k: int|
                0 <= k < os.len() ==> graphic_matches(
                    #[trigger] os[k],
                    range_of(w.graphics, r.graphic_offset, r.graphic_count)[k],
                ))) ==> forall|k: int| 0 <= k < os.len() ==> same_graphic(#[trigger] os[k], p.graphics@[k].primitive)
        }),
{
    let r = page_record(v, p);
    let gs = p.graphics@;
    lemma_page_graphics_at(v, p, w);
    let rs = range_of(w.graphics, r.graphic_offset, r.graphic_count);
    assert(rs.len() == gs.len());
    let ok = |k: int| graphic_error(rs[k], place_of(where_, "graphics"@, k as nat)) is None;
    assert forall|k: int| 0 <= k < rs.len() implies #[trigger] ok(k) by {
        assert(rs[k] == w.graphics[r.graphic_offset + k]);
        lemma_graphic_round_trip(gs[k].primitive, gs[k].bounds, place_of(where_, "graphics"@, k as nat), gs[k].primitive);
    }
    lemma_first_bad(ok, rs.len() as int);
    if os.len() == r.graphic_count && (forall|k: int| 0 <= k < os.len() ==> graphic_matches(#[trigger] os[k], rs[k])) {
        assert forall|k: int| 0 <= k < os.len() implies same_graphic(#[trigger] os[k], gs[k].primitive) by {
            assert(rs[k] == w.graphics[r.graphic_offset + k]);
            assert(graphic_matches(os[k], rs[k]));
            lemma_graphic_round_trip(gs[k].primitive, gs[k].bounds, Seq::empty(), os[k]);
        }
    }
}

proof fn lemma_extends_struct_nodes(a: ContentView, b: ContentView)
    requires
        extends(a, b),
    ensures
        is_prefix(a.struct_nodes, b.struct_nodes),
{
    reveal(extends);
}

/// Tagged node `k` of `ns` was packed onto the arrays `w` extends, its
/// record at `offset + k`.
pub open spec fn node_packed_at(v: ContentView, ns: Seq<StructNode>, w: ContentView, offset: nat, k: int) -> bool {
    let s = struct_node_step(fold(v, ns.take(k), struct_node_stepper()), ns[k]);
    &&& w.struct_nodes[offset + k] == s.struct_nodes.last()
    &&& extends(s, w)
    &&& fits(s)
}

/// Where a packed page's tagged nodes stand, and how each was packed.
proof fn lemma_page_struct_nodes_at(v: ContentView, p: PageParts, w: ContentView)
    requires
        extends(page_step(v, p), w),
        fits(w),
    ensures
        ({
            let v1 = fold(v, p.text_items@, item_stepper());
            let v2 = fold(v1, p.graphics@, graphic_stepper());
            let r = page_record(v, p);
            let ns = p.struct_nodes@;
            &&& r.struct_node_offset == v2.struct_nodes.len()
            &&& r.struct_node_count == ns.len()
            &&& v2.struct_nodes.len() + ns.len() <= w.struct_nodes.len()
            &&& forall|k: int| 0 <= k < ns.len() ==> #[trigger] node_packed_at(v2, ns, w, v2.struct_nodes.len(), k)
        }),
{
    reveal(page_record);
    let f = struct_node_stepper();
    let v1 = fold(v, p.text_items@, item_stepper());
    let v2 = fold(v1, p.graphics@, graphic_stepper());
    let ns = p.struct_nodes@;
    let arr = |x: ContentView| x.struct_nodes;
    let rec = |x: ContentView, n: StructNode| struct_node_step(x, n).struct_nodes.last();
    lemma_fold_pushes(v2, ns, f, arr, rec);
    let v3 = fold(v2, ns, f);
    lemma_content_to_page(v, p);
    lemma_extends_trans(v3, page_step(v, p), w);
    lemma_extends_struct_nodes(v3, w);
    lemma_simple_steps_extend();
    assert forall|k: int| 0 <= k < ns.len() implies #[trigger] node_packed_at(v2, ns, w, v2.struct_nodes.len(), k) by {
        let wk = fold(v2, ns.take(k), f);
        let s = struct_node_step(wk, ns[k]);
        assert(arr(v3)[v2.struct_nodes.len() + k] == rec(wk, ns[k]));
        crate::pack::lemma_fold_next(v2, ns, f, k);
        lemma_fold_take_extends(v2, ns, f, k + 1);
        lemma_extends_trans(s, v3, w);
        lemma_extends_fits(s, w);
    }
}

/// Reading back the tagged nodes of a packed page: its range passes every
/// check the reader makes, and the nodes read from it are the page's own,
/// in order, when those read back (see `struct_node_readable`).
pub proof fn lemma_page_struct_nodes_round_trip(v: ContentView, p: PageParts, w: ContentView, where_: Seq<char>, os: Seq<StructNode>)
    requires
        extends(page_step(v, p), w),
        fits(w),
        forall|k: int| 0 <= k < p.struct_nodes@.len() ==> struct_node_readable(#[trigger] p.struct_nodes@[k]),
    ensures
        ({
            let r = page_record(v, p);
            &&& r.struct_node_count == p.struct_nodes@.len()
            &&& r.struct_node_offset + r.struct_node_count <= w.struct_nodes.len()
            &&& struct_nodes_error(w.pool, w.mcids, w.struct_nodes, r.struct_node_offset, r.struct_node_count, where_) is None
            &&& (os.len() == r.struct_node_count && (forall|k: int|
                0 <= k < os.len() ==> struct_node_matches(
                    #[trigger] os[k],
                    w.pool,
                    w.mcids,
                    range_of(w.struct_nodes, r.struct_node_offset, r.struct_node_count)[k],
                ))) ==> forall|k: int| 0 <= k < os.len() ==> same_struct_node(#[trigger] os[k], p.struct_nodes@[k])
        }),
{
    let f = struct_node_stepper();
    let r = page_record(v, p);
    let ns = p.struct_nodes@;
    let v1 = fold(v, p.text_items@, item_stepper());
    let v2 = fold(v1, p.graphics@, graphic_stepper());
    lemma_page_struct_nodes_at(v, p, w);
    let rs = range_of(w.struct_nodes, r.struct_node_offset, r.struct_node_count);
    assert(rs.len() == ns.len());
    let ok = |k: int| struct_node_error(w.pool, w.mcids, rs[k], place_of(where_, "struct_nodes"@, k as nat)) is None;
    assert forall|k: int| 0 <= k < rs.len() implies #[trigger] ok(k) by {
        assert(node_packed_at(v2, ns, w, v2.struct_nodes.len(), k));
        assert(rs[k] == w.struct_nodes[r.struct_node_offset + k]);
        lemma_struct_node_round_trip(fold(v2, ns.take(k), f), ns[k], w, place_of(where_, "struct_nodes"@, k as nat), ns[k]);
    }
    lemma_first_bad(ok, rs.len() as int);
    if os.len() == r.struct_node_count && (forall|k: int|
        0 <= k < os.len() ==> struct_node_matches(#[trigger] os[k], w.pool, w.mcids, rs[k])) {
        assert forall|k: int| 0 <= k < os.len() implies same_struct_node(#[trigger] os[k], ns[k]) by {
            assert(node_packed_at(v2, ns, w, v2.struct_nodes.len(), k));
            assert(rs[k] == w.struct_nodes[r.struct_node_offset + k]);
            assert(struct_node_matches(os[k], w.pool, w.mcids, rs[k]));
            lemma_struct_node_round_trip(fold(v2, ns.take(k), f), ns[k], w, Seq::empty(), os[k]);
        }
    }
}

proof fn lemma_extends_images(a: ContentView, b: ContentView)
    requires
        extends(a, b),
    ensures
        is_prefix(a.pool, b.pool),
        is_prefix(a.image_refs, b.image_refs),
{
    reveal(extends);
}

/// Where a packed page's image objects stand, and what their records and
/// bytes are.
proof fn lemma_page_image_refs_at(v: ContentView, p: PageParts, w: ContentView)
    requires
        extends(page_step(v, p), w),
        fits(w),
    ensures
        ({
            let v1 = fold(v, p.text_items@, item_stepper());
            let v2 = fold(v1, p.graphics@, graphic_stepper());
            let v3 = fold(v2, p.struct_nodes@, struct_node_stepper());
            let r = page_record(v, p);
            let ms = p.image_refs@;
            &&& r.image_ref_offset == v3.image_refs.len()
            &&& r.image_ref_count == ms.len()
            &&& v3.image_refs.len() + ms.len() <= w.image_refs.len()
            &&& forall|k: int|
                0 <= k < ms.len() ==> #[trigger] w.image_refs[v3.image_refs.len() + k] == pooled::<
                    ImageRef,
                    LiteParseImageRef,
                >(v3.pool.len(), ms)[k]
            &&& is_prefix(v3.pool + all_appended::<ImageRef, LiteParseImageRef>(ms), w.pool)
            &&& w.pool.len() <= u32::MAX
        }),
{
    reveal(page_record);
    let v1 = fold(v, p.text_items@, item_stepper());
    let v2 = fold(v1, p.graphics@, graphic_stepper());
    let v3 = fold(v2, p.struct_nodes@, struct_node_stepper());
    let v4 = images_step(v3, p.image_refs@);
    lemma_content_to_page(v, p);
    lemma_extends_trans(v4, page_step(v, p), w);
    lemma_extends_images(v4, w);
    let ms = p.image_refs@;
    assert forall|k: int| 0 <= k < ms.len() implies #[trigger] w.image_refs[v3.image_refs.len() + k] == pooled::<
        ImageRef,
        LiteParseImageRef,
    >(v3.pool.len(), ms)[k] by {
        assert(w.image_refs[v3.image_refs.len() + k] == v4.image_refs[v3.image_refs.len() + k]);
    }
}

/// Reading back the image objects of a packed page: its range passes
/// every check the reader makes, and the objects read from it are the
/// page's own, in order, but for the bytes the records do not carry, when
/// those read back (see `image_ref_readable`).
pub proof fn lemma_page_image_refs_round_trip(v: ContentView, p: PageParts, w: ContentView, where_: Seq<char>, os: Seq<ImageRef>)
    requires
        extends(page_step(v, p), w),
        fits(w),
        forall|k: int| 0 <= k < p.image_refs@.len() ==> image_ref_readable(#[trigger] p.image_refs@[k]),
    ensures
        ({
            let r = page_record(v, p);
            &&& r.image_ref_count == p.image_refs@.len() && r.image_ref_offset + r.image_ref_count <= w.image_refs.len()
            &&& image_refs_error(w.pool, w.image_refs, r.image_ref_offset, r.image_ref_count, where_) is None
            &&& (os.len() == r.image_ref_count && (forall|k: int|
                0 <= k < os.len() ==> image_ref_matches(
                    #[trigger] os[k],
                    w.pool,
                    range_of(w.image_refs, r.image_ref_offset, r.image_ref_count)[k],
                ))) ==> forall|k: int| 0 <= k < os.len() ==> same_image_ref(#[trigger] os[k], p.image_refs@[k])
        }),
{
    let r = page_record(v, p);
    let ms = p.image_refs@;
    let v1 = fold(v, p.text_items@, item_stepper());
    let v2 = fold(v1, p.graphics@, graphic_stepper());
    let v3 = fold(v2, p.struct_nodes@, struct_node_stepper());
    lemma_page_image_refs_at(v, p, w);
    let rs = range_of(w.image_refs, r.image_ref_offset, r.image_ref_count);
    assert(rs.len() == ms.len());
    let ok = |k: int| image_ref_error(w.pool, rs[k], place_of(where_, "image_refs"@, k as nat)) is None;
    assert forall|k: int| 0 <= k < rs.len() implies #[trigger] ok(k) by {
        assert(rs[k] == w.image_refs[r.image_ref_offset + k]);
        lemma_image_ref_round_trip(v3.pool, ms, k, w.pool, place_of(where_, "image_refs"@, k as nat), ms[k]);
    }
    lemma_first_bad(ok, rs.len() as int);
    if os.len() == r.image_ref_count && (forall|k: int| 0 <= k < os.len() ==> image_ref_matches(#[trigger] os[k], w.pool, rs[k])) {
        assert forall|k: int| 0 <= k < os.len() implies same_image_ref(#[trigger] os[k], ms[k]) by {
            assert(rs[k] == w.image_refs[r.image_ref_offset + k]);
            assert(image_ref_matches(os[k], w.pool, rs[k]));
            lemma_image_ref_round_trip(v3.pool, ms, k, w.pool, Seq::empty(), os[k]);
        }
    }
}

// Annotations.
/// An annotation reads back as itself when its box and quadpoints are
/// finite and none of its optional strings is empty.
pub open spec fn annotation_readable(a: DocumentAnnotation) -> bool {
    &&& (a.rect matches Some(b) ==> rect_finite(b))
    &&& rects_ok(a.quadpoint_rects@)
    &&& read_back(a.contents) == opt_view(a.contents)
    &&& read_back(a.created) == opt_view(a.created)
    &&& read_back(a.modified) == opt_view(a.modified)
    &&& read_back(a.title) == opt_view(a.title)
    &&& read_back(a.uri) == opt_view(a.uri)
}

pub open spec fn same_annotation(a: DocumentAnnotation, b: DocumentAnnotation) -> bool {
    &&& a.subtype@ == b.subtype@
    &&& opt_view(a.contents) == opt_view(b.contents)
    &&& opt_view(a.created) == opt_view(b.created)
    &&& opt_view(a.modified) == opt_view(b.modified)
    &&& opt_view(a.title) == opt_view(b.title)
    &&& a.rect == b.rect
    &&& a.quadpoint_rects@ == b.quadpoint_rects@
    &&& opt_view(a.uri) == opt_view(b.uri)
}

/// What starts a sequence that continues `a` starts with `a`.
pub proof fn lemma_prefix_drop<T>(a: Seq<T>, b: Seq<T>, w: Seq<T>)
    requires
        is_prefix(a + b, w),
    ensures
        is_prefix(a, w),
{
    crate::round_trip::lemma_prefix_add(a, b);
    lemma_prefix_trans(a, a + b, w);
}

proof fn lemma_annotation_bit(a: bool, f: u32)
    requires
        f == bit_if(a, LITEPARSE_ANNOTATION_FLAG_HAS_RECT),
    ensures
        only_known(f, ANNOTATION_FLAGS),
        (f & LITEPARSE_ANNOTATION_FLAG_HAS_RECT != 0) == a,
{
    assert(f & !1u32 == 0 && (f & 1 != 0) == a) by (bit_vector)
        requires
            f == bit_if(a, LITEPARSE_ANNOTATION_FLAG_HAS_RECT),
    ;
}

proof fn lemma_extends_annotations(a: ContentView, b: ContentView)
    requires
        extends(a, b),
    ensures
        is_prefix(a.pool, b.pool),
        is_prefix(a.quadpoints, b.quadpoints),
        is_prefix(a.annotations, b.annotations),
{
    reveal(extends);
}

/// An annotation packed onto arrays `v`, in arrays `w` that extend what
/// packing it gave, passes the reader's checks and reads back as itself,
/// when readable.
#[verifier::spinoff_prover]
#[verifier::rlimit(40)]
pub proof fn lemma_annotation_round_trip(v: ContentView, a: DocumentAnnotation, w: ContentView, what: Seq<char>, o: DocumentAnnotation)
    requires
        extends(annotation_step(v, a), w),
        fits(annotation_step(v, a)),
        annotation_readable(a),
    ensures
        annotation_error(w.pool, w.quadpoints, annotation_step(v, a).annotations.last(), what) is None,
        annotation_matches(o, w.pool, w.quadpoints, annotation_step(v, a).annotations.last()) ==> same_annotation(o, a),
{
    let s = annotation_step(v, a);
    let r = s.annotations.last();
    lemma_extends_annotations(s, w);
    let p0 = v.pool;
    let p1 = p0 + encode_utf8(a.subtype@);
    let p2 = p1 + opt_bytes(a.contents);
    let p3 = p2 + opt_bytes(a.created);
    let p4 = p3 + opt_bytes(a.modified);
    let p5 = p4 + opt_bytes(a.title);
    assert(s.pool =~= p5 + opt_bytes(a.uri));
    lemma_prefix_drop(p5, opt_bytes(a.uri), w.pool);
    lemma_prefix_drop(p4, opt_bytes(a.title), w.pool);
    lemma_prefix_drop(p3, opt_bytes(a.modified), w.pool);
    lemma_prefix_drop(p2, opt_bytes(a.created), w.pool);
    lemma_prefix_drop(p1, opt_bytes(a.contents), w.pool);
    lemma_read_str(w.pool, p0, Some(a.subtype));
    lemma_read_str(w.pool, p1, a.contents);
    lemma_read_str(w.pool, p2, a.created);
    lemma_read_str(w.pool, p3, a.modified);
    lemma_read_str(w.pool, p4, a.title);
    lemma_read_str(w.pool, p5, a.uri);
    lemma_annotation_bit(a.rect is Some, r.flags);
    let qs = a.quadpoint_rects@;
    assert(s.quadpoints == v.quadpoints + qs);
    assert(r.quadpoint_count == qs.len());
    assert(range_of(w.quadpoints, r.quadpoint_offset, r.quadpoint_count) =~= qs) by {
        assert forall|i: int| 0 <= i < qs.len() implies #[trigger] w.quadpoints[v.quadpoints.len() + i] == qs[i] by {
            assert(w.quadpoints[v.quadpoints.len() + i] == s.quadpoints[v.quadpoints.len() + i]);
        }
    }
}

/// Annotation `k` of `anns` was packed onto the arrays `w` extends, its
/// record at `offset + k`.
pub open spec fn annotation_packed_at(v: ContentView, anns: Seq<DocumentAnnotation>, w: ContentView, offset: nat, k: int) -> bool {
    let s = annotation_step(fold(v, anns.take(k), annotation_stepper()), anns[k]);
    &&& w.annotations[offset + k] == s.annotations.last()
    &&& extends(s, w)
    &&& fits(s)
}

/// Where a packed page's own annotations stand, and how each was packed.
proof fn lemma_page_annotations_at(v: ContentView, p: PageParts, w: ContentView)
    requires
        extends(page_step(v, p), w),
        fits(w),
    ensures
        ({
            let v1 = fold(v, p.text_items@, item_stepper());
            let v2 = fold(v1, p.graphics@, graphic_stepper());
            let v3 = fold(v2, p.struct_nodes@, struct_node_stepper());
            let v4 = images_step(v3, p.image_refs@);
            let r = page_record(v, p);
            let anns = list_or_empty(p.annotations);
            &&& r.annotation_offset == v4.annotations.len()
            &&& r.annotation_count == anns.len()
            &&& v4.annotations.len() + anns.len() <= w.annotations.len()
            &&& forall|k: int| 0 <= k < anns.len() ==> #[trigger] annotation_packed_at(v4, anns, w, v4.annotations.len(), k)
        }),
{
    reveal(page_record);
    let f = annotation_stepper();
    let v1 = fold(v, p.text_items@, item_stepper());
    let v2 = fold(v1, p.graphics@, graphic_stepper());
    let v3 = fold(v2, p.struct_nodes@, struct_node_stepper());
    let v4 = images_step(v3, p.image_refs@);
    let anns = list_or_empty(p.annotations);
    let arr = |x: ContentView| x.annotations;
    let rec = |x: ContentView, a: DocumentAnnotation| annotation_step(x, a).annotations.last();
    lemma_fold_pushes(v4, anns, f, arr, rec);
    let v5 = fold(v4, anns, f);
    lemma_content_to_page(v, p);
    lemma_extends_trans(v5, page_step(v, p), w);
    lemma_extends_annotations(v5, w);
    lemma_simple_steps_extend();
    assert forall|k: int| 0 <= k < anns.len() implies #[trigger] annotation_packed_at(v4, anns, w, v4.annotations.len(), k) by {
        let wk = fold(v4, anns.take(k), f);
        let s = annotation_step(wk, anns[k]);
        assert(arr(v5)[v4.annotations.len() + k] == rec(wk, anns[k]));
        crate::pack::lemma_fold_next(v4, anns, f, k);
        lemma_fold_take_extends(v4, anns, f, k + 1);
        lemma_extends_trans(s, v5, w);
        lemma_extends_fits(s, w);
    }
}

/// Reading back the annotations of a packed page: its range passes every
/// check the reader makes, and the annotations read from it are the
/// page's own, in order, when those read back (see `annotation_readable`).
pub proof fn lemma_page_annotations_round_trip(v: ContentView, p: PageParts, w: ContentView, where_: Seq<char>, os: Seq<DocumentAnnotation>)
    requires
        extends(page_step(v, p), w),
        fits(w),
        forall|k: int|
            0 <= k < list_or_empty(p.annotations).len() ==> annotation_readable(
                #[trigger] list_or_empty(p.annotations)[k],
            ),
    ensures
        ({
            let r = page_record(v, p);
            &&& r.annotation_count == list_or_empty(p.annotations).len()
            &&& r.annotation_offset + r.annotation_count <= w.annotations.len()
            &&& annotations_error(
                w.pool,
                w.quadpoints,
                w.annotations,
                r.annotation_offset,
                r.annotation_count,
                where_,
                "annotations"@,
            ) is None
            &&& (os.len() == r.annotation_count && (forall|k: int|
                0 <= k < os.len() ==> annotation_matches(
                    #[trigger] os[k],
                    w.pool,
                    w.quadpoints,
                    range_of(w.annotations, r.annotation_offset, r.annotation_count)[k],
                ))) ==> forall|k: int|
                0 <= k < os.len() ==> same_annotation(#[trigger] os[k], list_or_empty(p.annotations)[k])
        }),
{
    let f = annotation_stepper();
    let r = page_record(v, p);
    let anns = list_or_empty(p.annotations);
    let v1 = fold(v, p.text_items@, item_stepper());
    let v2 = fold(v1, p.graphics@, graphic_stepper());
    let v3 = fold(v2, p.struct_nodes@, struct_node_stepper());
    let v4 = images_step(v3, p.image_refs@);
    lemma_page_annotations_at(v, p, w);
    let rs = range_of(w.annotations, r.annotation_offset, r.annotation_count);
    assert(rs.len() == anns.len());
    let ok = |k: int| annotation_error(w.pool, w.quadpoints, rs[k], place_of(where_, "annotations"@, k as nat)) is None;
    assert forall|k: int| 0 <= k < rs.len() implies #[trigger] ok(k) by {
        assert(annotation_packed_at(v4, anns, w, v4.annotations.len(), k));
        assert(rs[k] == w.annotations[r.annotation_offset + k]);
        lemma_annotation_round_trip(fold(v4, anns.take(k), f), anns[k], w, place_of(where_, "annotations"@, k as nat), anns[k]);
    }
    lemma_first_bad(ok, rs.len() as int);
    if os.len() == r.annotation_count && (forall|k: int|
        0 <= k < os.len() ==> annotation_matches(#[trigger] os[k], w.pool, w.quadpoints, rs[k])) {
        assert forall|k: int| 0 <= k < os.len() implies same_annotation(#[trigger] os[k], anns[k]) by {
            assert(annotation_packed_at(v4, anns, w, v4.annotations.len(), k));
            assert(rs[k] == w.annotations[r.annotation_offset + k]);
            assert(annotation_matches(os[k], w.pool, w.quadpoints, rs[k]));
            lemma_annotation_round_trip(fold(v4, anns.take(k), f), anns[k], w, Seq::empty(), os[k]);
        }
    }
}

// Form fields.
/// Strings pooled from `pre` on, in a pool that keeps those bytes, all
/// read, and read back as themselves.
pub proof fn lemma_pooled_strings(pre: Seq<u8>, xs: Seq<String>, pool: Seq<u8>)
    requires
        is_prefix(pre + all_appended::<String, LiteParseStr>(xs), pool),
        (pre + all_appended::<String, LiteParseStr>(xs)).len() <= u32::MAX,
    ensures
        strs_ok(pool, pooled::<String, LiteParseStr>(pre.len(), xs)),
        texts_of(pool, pooled::<String, LiteParseStr>(pre.len(), xs)) == texts(xs),
{
    let ps = pooled::<String, LiteParseStr>(pre.len(), xs);
    assert forall|k: int| 0 <= k < xs.len() implies str_ok(pool, #[trigger] ps[k]) && text_or_empty(pool, ps[k])
        == xs[k]@ by {
        crate::round_trip::lemma_appended_at::<String, LiteParseStr>(pre, xs, k);
        let q = pre + all_appended::<String, LiteParseStr>(xs.take(k));
        lemma_prefix_trans(
            q + LiteParseStr::appended(&xs[k]),
            pre + all_appended::<String, LiteParseStr>(xs),
            pool,
        );
        lemma_read_str(pool, q, Some(xs[k]));
    }
    assert(texts_of(pool, ps) =~= texts(xs));
}

/// A form field reads back as itself when its box is finite and none of
/// its optional strings is empty.
pub open spec fn form_field_readable(f: FormField) -> bool {
    &&& (f.rect matches Some(b) ==> rect_finite(b))
    &&& read_back(f.name) == opt_view(f.name)
    &&& read_back(f.alternate_name) == opt_view(f.alternate_name)
    &&& read_back(f.value) == opt_view(f.value)
    &&& read_back(f.export_value) == opt_view(f.export_value)
}

pub open spec fn same_form_field(a: FormField, b: FormField) -> bool {
    &&& a.id@ == b.id@ && a.field_type@ == b.field_type@
    &&& a.page == b.page && a.annotation_index == b.annotation_index && a.widget_index == b.widget_index
    &&& a.object_number == b.object_number
    &&& opt_view(a.name) == opt_view(b.name)
    &&& opt_view(a.alternate_name) == opt_view(b.alternate_name)
    &&& opt_view(a.value) == opt_view(b.value)
    &&& opt_view(a.export_value) == opt_view(b.export_value)
    &&& a.field_flags == b.field_flags
    &&& a.control_count == b.control_count && a.control_index == b.control_index
    &&& a.checked == b.checked
    &&& a.rect == b.rect
    &&& texts(a.options@) == texts(b.options@)
    &&& texts(a.selected_options@) == texts(b.selected_options@)
}

proof fn lemma_field_bits(c0: bool, c1: bool, c2: bool, c3: bool, c4: bool, c5: bool, f: u32)
    requires
        f == bit_if(c0, LITEPARSE_FORM_FIELD_FLAG_HAS_OBJECT_NUMBER) | bit_if(c1, LITEPARSE_FORM_FIELD_FLAG_HAS_CONTROL_COUNT)
            | bit_if(c2, LITEPARSE_FORM_FIELD_FLAG_HAS_CONTROL_INDEX) | bit_if(c3, LITEPARSE_FORM_FIELD_FLAG_HAS_CHECKED)
            | bit_if(c4, LITEPARSE_FORM_FIELD_FLAG_CHECKED) | bit_if(c5, LITEPARSE_FORM_FIELD_FLAG_HAS_RECT),
    ensures
        only_known(f, FORM_FIELD_FLAGS),
        (f & LITEPARSE_FORM_FIELD_FLAG_HAS_OBJECT_NUMBER != 0) == c0,
        (f & LITEPARSE_FORM_FIELD_FLAG_HAS_CONTROL_COUNT != 0) == c1,
        (f & LITEPARSE_FORM_FIELD_FLAG_HAS_CONTROL_INDEX != 0) == c2,
        (f & LITEPARSE_FORM_FIELD_FLAG_HAS_CHECKED != 0) == c3,
        (f & LITEPARSE_FORM_FIELD_FLAG_CHECKED != 0) == c4,
        (f & LITEPARSE_FORM_FIELD_FLAG_HAS_RECT != 0) == c5,
{
    assert(f & !63u32 == 0 && (f & 1 != 0) == c0 && (f & 2 != 0) == c1 && (f & 4 != 0) == c2 && (f & 8 != 0) == c3
        && (f & 16 != 0) == c4 && (f & 32 != 0) == c5) by (bit_vector)
        requires
            f == bit_if(c0, LITEPARSE_FORM_FIELD_FLAG_HAS_OBJECT_NUMBER) | bit_if(c1, LITEPARSE_FORM_FIELD_FLAG_HAS_CONTROL_COUNT)
                | bit_if(c2, LITEPARSE_FORM_FIELD_FLAG_HAS_CONTROL_INDEX) | bit_if(c3, LITEPARSE_FORM_FIELD_FLAG_HAS_CHECKED)
                | bit_if(c4, LITEPARSE_FORM_FIELD_FLAG_CHECKED) | bit_if(c5, LITEPARSE_FORM_FIELD_FLAG_HAS_RECT),
    ;
}

proof fn lemma_extends_fields(a: ContentView, b: ContentView)
    requires
        extends(a, b),
    ensures
        is_prefix(a.pool, b.pool),
        is_prefix(a.strings, b.strings),
        is_prefix(a.form_fields, b.form_fields),
{
    reveal(extends);
}

/// The string records of a form field's option list, read from arrays
/// that keep them, are the records packing gave them.
proof fn lemma_option_range(before: Seq<LiteParseStr>, mid: Seq<LiteParseStr>, all: Seq<LiteParseStr>, count: u32)
    requires
        is_prefix(before + mid, all),
        count == mid.len(),
        before.len() <= u32::MAX,
    ensures
        range_fits(before.len() as u32, count, all.len()),
        range_of(all, before.len() as u32, count) == mid,
{
    assert forall|i: int| 0 <= i < mid.len() implies #[trigger] all[before.len() + i] == mid[i] by {
        assert((before + mid)[before.len() + i] == mid[i]);
    }
    assert(range_of(all, before.len() as u32, count) =~= mid);
}

/// A form field packed onto arrays `v`, in arrays `w` that extend what
/// packing it gave, passes the reader's checks and reads back as itself,
/// when readable.
#[verifier::spinoff_prover]
#[verifier::rlimit(40)]
pub proof fn lemma_form_field_round_trip(v: ContentView, f: FormField, w: ContentView, what: Seq<char>, o: FormField)
    requires
        extends(form_field_step(v, f), w),
        fits(form_field_step(v, f)),
        form_field_readable(f),
    ensures
        form_field_error(w.pool, w.strings, form_field_step(v, f).form_fields.last(), what) is None,
        form_field_matches(o, w.pool, w.strings, form_field_step(v, f).form_fields.last()) ==> same_form_field(o, f),
{
    let s = form_field_step(v, f);
    let r = s.form_fields.last();
    lemma_extends_fields(s, w);
    let ob = all_appended::<String, LiteParseStr>(f.options@);
    let sb = all_appended::<String, LiteParseStr>(f.selected_options@);
    let po = pooled::<String, LiteParseStr>(v.pool.len(), f.options@);
    let ps = pooled::<String, LiteParseStr>(v.pool.len() + ob.len(), f.selected_options@);
    let q0 = v.pool + ob + sb;
    let q1 = q0 + encode_utf8(f.id@);
    let q2 = q1 + encode_utf8(f.field_type@);
    let q3 = q2 + opt_bytes(f.name);
    let q4 = q3 + opt_bytes(f.alternate_name);
    let q5 = q4 + opt_bytes(f.value);
    assert(s.pool =~= q5 + opt_bytes(f.export_value));
    lemma_prefix_drop(q5, opt_bytes(f.export_value), w.pool);
    lemma_prefix_drop(q4, opt_bytes(f.value), w.pool);
    lemma_prefix_drop(q3, opt_bytes(f.alternate_name), w.pool);
    lemma_prefix_drop(q2, opt_bytes(f.name), w.pool);
    lemma_prefix_drop(q1, encode_utf8(f.field_type@), w.pool);
    lemma_prefix_drop(q0, encode_utf8(f.id@), w.pool);
    lemma_prefix_drop(v.pool + ob, sb, w.pool);
    lemma_read_str(w.pool, q0, Some(f.id));
    lemma_read_str(w.pool, q1, Some(f.field_type));
    lemma_read_str(w.pool, q2, f.name);
    lemma_read_str(w.pool, q3, f.alternate_name);
    lemma_read_str(w.pool, q4, f.value);
    lemma_read_str(w.pool, q5, f.export_value);
    lemma_pooled_strings(v.pool, f.options@, w.pool);
    lemma_pooled_strings(v.pool + ob, f.selected_options@, w.pool);
    lemma_field_bits(
        f.object_number is Some,
        f.control_count is Some,
        f.control_index is Some,
        f.checked is Some,
        f.checked == Some(true),
        f.rect is Some,
        r.flags,
    );
    assert(s.strings == (v.strings + po) + ps);
    crate::round_trip::lemma_prefix_add(v.strings + po, ps);
    lemma_prefix_trans(v.strings + po, s.strings, w.strings);
    lemma_option_range(v.strings, po, w.strings, r.option_count);
    lemma_option_range(v.strings + po, ps, w.strings, r.selected_option_count);
    if form_field_matches(o, w.pool, w.strings, r) {
        assert(o.object_number == f.object_number);
        assert(o.control_count == f.control_count);
        assert(o.control_index == f.control_index);
        assert(o.checked == f.checked);
        assert(o.rect == f.rect);
        assert(texts(o.options@) == texts(f.options@));
        assert(texts(o.selected_options@) == texts(f.selected_options@));
    }
}

/// Form field `k` of `fs` was packed onto the arrays `w` extends, its
/// record at `offset + k`.
pub open spec fn field_packed_at(v: ContentView, fs: Seq<FormField>, w: ContentView, offset: nat, k: int) -> bool {
    let s = form_field_step(fold(v, fs.take(k), form_field_stepper()), fs[k]);
    &&& w.form_fields[offset + k] == s.form_fields.last()
    &&& extends(s, w)
    &&& fits(s)
}

/// Where a packed page's form fields stand, and how each was packed.
proof fn lemma_page_form_fields_at(v: ContentView, p: PageParts, w: ContentView)
    requires
        extends(page_step(v, p), w),
        fits(w),
    ensures
        ({
            let v1 = fold(v, p.text_items@, item_stepper());
            let v2 = fold(v1, p.graphics@, graphic_stepper());
            let v3 = fold(v2, p.struct_nodes@, struct_node_stepper());
            let v4 = images_step(v3, p.image_refs@);
            let v5 = fold(v4, list_or_empty(p.annotations), annotation_stepper());
            let r = page_record(v, p);
            let fs = list_or_empty(p.form_fields);
            &&& r.form_field_offset == v5.form_fields.len()
            &&& r.form_field_count == fs.len()
            &&& v5.form_fields.len() + fs.len() <= w.form_fields.len()
            &&& forall|k: int| 0 <= k < fs.len() ==> #[trigger] field_packed_at(v5, fs, w, v5.form_fields.len(), k)
        }),
{
    reveal(page_record);
    let f = form_field_stepper();
    let v1 = fold(v, p.text_items@, item_stepper());
    let v2 = fold(v1, p.graphics@, graphic_stepper());
    let v3 = fold(v2, p.struct_nodes@, struct_node_stepper());
    let v4 = images_step(v3, p.image_refs@);
    let v5 = fold(v4, list_or_empty(p.annotations), annotation_stepper());
    let fs = list_or_empty(p.form_fields);
    let arr = |x: ContentView| x.form_fields;
    let rec = |x: ContentView, g: FormField| form_field_step(x, g).form_fields.last();
    lemma_fold_pushes(v5, fs, f, arr, rec);
    let v6 = fold(v5, fs, f);
    lemma_content_to_page(v, p);
    lemma_extends_trans(v6, page_step(v, p), w);
    lemma_extends_fields(v6, w);
    lemma_simple_steps_extend();
    assert forall|k: int| 0 <= k < fs.len() implies #[trigger] field_packed_at(v5, fs, w, v5.form_fields.len(), k) by {
        let wk = fold(v5, fs.take(k), f);
        let s = form_field_step(wk, fs[k]);
        assert(arr(v6)[v5.form_fields.len() + k] == rec(wk, fs[k]));
        crate::pack::lemma_fold_next(v5, fs, f, k);
        lemma_fold_take_extends(v5, fs, f, k + 1);
        lemma_extends_trans(s, v6, w);
        lemma_extends_fits(s, w);
    }
}

/// Reading back the form fields of a packed page: its range passes every
/// check the reader makes, and the fields read from it are the page's
/// own, in order, when those read back (see `form_field_readable`).
pub proof fn lemma_page_form_fields_round_trip(v: ContentView, p: PageParts, w: ContentView, where_: Seq<char>, os: Seq<FormField>)
    requires
        extends(page_step(v, p), w),
        fits(w),
        forall|k: int|
            0 <= k < list_or_empty(p.form_fields).len() ==> form_field_readable(
                #[trigger] list_or_empty(p.form_fields)[k],
            ),
    ensures
        ({
            let r = page_record(v, p);
            &&& r.form_field_count == list_or_empty(p.form_fields).len()
            &&& r.form_field_offset + r.form_field_count <= w.form_fields.len()
            &&& form_fields_error(w.pool, w.strings, w.form_fields, r.form_field_offset, r.form_field_count, where_) is None
            &&& (os.len() == r.form_field_count && (forall|k: int|
                0 <= k < os.len() ==> form_field_matches(
                    #[trigger] os[k],
                    w.pool,
                    w.strings,
                    range_of(w.form_fields, r.form_field_offset, r.form_field_count)[k],
                ))) ==> forall|k: int|
                0 <= k < os.len() ==> same_form_field(#[trigger] os[k], list_or_empty(p.form_fields)[k])
        }),
{
    let f = form_field_stepper();
    let r = page_record(v, p);
    let fs = list_or_empty(p.form_fields);
    let v1 = fold(v, p.text_items@, item_stepper());
    let v2 = fold(v1, p.graphics@, graphic_stepper());
    let v3 = fold(v2, p.struct_nodes@, struct_node_stepper());
    let v4 = images_step(v3, p.image_refs@);
    let v5 = fold(v4, list_or_empty(p.annotations), annotation_stepper());
    lemma_page_form_fields_at(v, p, w);
    let rs = range_of(w.form_fields, r.form_field_offset, r.form_field_count);
    assert(rs.len() == fs.len());
    let ok = |k: int| form_field_error(w.pool, w.strings, rs[k], place_of(where_, "form_fields"@, k as nat)) is None;
    assert forall|k: int| 0 <= k < rs.len() implies #[trigger] ok(k) by {
        assert(field_packed_at(v5, fs, w, v5.form_fields.len(), k));
        assert(rs[k] == w.form_fields[r.form_field_offset + k]);
        lemma_form_field_round_trip(fold(v5, fs.take(k), f), fs[k], w, place_of(where_, "form_fields"@, k as nat), fs[k]);
    }
    lemma_first_bad(ok, rs.len() as int);
    if os.len() == r.form_field_count && (forall|k: int|
        0 <= k < os.len() ==> form_field_matches(#[trigger] os[k], w.pool, w.strings, rs[k])) {
        assert forall|k: int| 0 <= k < os.len() implies same_form_field(#[trigger] os[k], fs[k]) by {
            assert(field_packed_at(v5, fs, w, v5.form_fields.len(), k));
            assert(rs[k] == w.form_fields[r.form_field_offset + k]);
            assert(form_field_matches(os[k], w.pool, w.strings, rs[k]));
            lemma_form_field_round_trip(fold(v5, fs.take(k), f), fs[k], w, Seq::empty(), os[k]);
        }
    }
}

// Vector graphics.
/// A vector shape reads back as itself when its box is finite and its
/// colours are spelled as packing prints them.
pub open spec fn shape_readable(sh: VectorShape) -> bool {
    rect_finite(sh.bbox) && canonical_color(sh.stroke_color) && canonical_color(sh.fill_color)
}

/// A vector line reads back as itself when its ends and stroke width are
/// finite and its colours are spelled as packing prints them.
pub open spec fn line_readable(l: VectorLine) -> bool {
    &&& all_finite(seq![l.x1, l.y1, l.x2, l.y2])
    &&& (l.stroke_width matches Some(x) ==> f32_finite(x))
    &&& canonical_color(l.stroke_color) && canonical_color(l.fill_color)
}

/// Whether a page's vector graphics, if any, all read back.
pub open spec fn vectors_readable(g: Option<VectorGraphics>) -> bool {
    g matches Some(vg) ==> {
        &&& forall|k: int| 0 <= k < vg.shapes@.len() ==> shape_readable(#[trigger] vg.shapes@[k])
        &&& forall|k: int| 0 <= k < vg.lines@.len() ==> line_readable(#[trigger] vg.lines@[k])
    }
}

pub open spec fn same_shape(a: VectorShape, b: VectorShape) -> bool {
    &&& a.bbox == b.bbox && a.stroke == b.stroke && a.fill == b.fill && a.has_curve == b.has_curve
    &&& opt_view(a.stroke_color) == opt_view(b.stroke_color) && opt_view(a.fill_color) == opt_view(b.fill_color)
}

pub open spec fn same_line(a: VectorLine, b: VectorLine) -> bool {
    &&& a.x1 == b.x1 && a.y1 == b.y1 && a.x2 == b.x2 && a.y2 == b.y2
    &&& a.stroke == b.stroke && a.fill == b.fill && a.stroke_width == b.stroke_width
    &&& opt_view(a.stroke_color) == opt_view(b.stroke_color) && opt_view(a.fill_color) == opt_view(b.fill_color)
}

pub open spec fn same_vectors(a: VectorGraphics, b: VectorGraphics) -> bool {
    &&& a.shapes@.len() == b.shapes@.len()
    &&& forall|k: int| 0 <= k < a.shapes@.len() ==> same_shape(#[trigger] a.shapes@[k], b.shapes@[k])
    &&& a.lines@.len() == b.lines@.len()
    &&& forall|k: int| 0 <= k < a.lines@.len() ==> same_line(#[trigger] a.lines@[k], b.lines@[k])
}

proof fn lemma_vector_bits(c0: bool, c1: bool, c2: bool, c3: bool, c4: bool, c5: bool, f: u32)
    requires
        f == bit_if(c0, LITEPARSE_VECTOR_FLAG_STROKE) | bit_if(c1, LITEPARSE_VECTOR_FLAG_FILL) | bit_if(
            c2,
            LITEPARSE_VECTOR_FLAG_HAS_STROKE_COLOR,
        ) | bit_if(c3, LITEPARSE_VECTOR_FLAG_HAS_FILL_COLOR) | bit_if(c4, LITEPARSE_VECTOR_FLAG_HAS_CURVE) | bit_if(
            c5,
            LITEPARSE_VECTOR_FLAG_HAS_STROKE_WIDTH,
        ),
    ensures
        only_known(f, VECTOR_FLAGS),
        (f & LITEPARSE_VECTOR_FLAG_STROKE != 0) == c0,
        (f & LITEPARSE_VECTOR_FLAG_FILL != 0) == c1,
        (f & LITEPARSE_VECTOR_FLAG_HAS_STROKE_COLOR != 0) == c2,
        (f & LITEPARSE_VECTOR_FLAG_HAS_FILL_COLOR != 0) == c3,
        (f & LITEPARSE_VECTOR_FLAG_HAS_CURVE != 0) == c4,
        (f & LITEPARSE_VECTOR_FLAG_HAS_STROKE_WIDTH != 0) == c5,
{
    assert(f & !63u32 == 0 && (f & 1 != 0) == c0 && (f & 2 != 0) == c1 && (f & 4 != 0) == c2 && (f & 8 != 0) == c3
        && (f & 16 != 0) == c4 && (f & 32 != 0) == c5) by (bit_vector)
        requires
            f == bit_if(c0, LITEPARSE_VECTOR_FLAG_STROKE) | bit_if(c1, LITEPARSE_VECTOR_FLAG_FILL) | bit_if(
                c2,
                LITEPARSE_VECTOR_FLAG_HAS_STROKE_COLOR,
            ) | bit_if(c3, LITEPARSE_VECTOR_FLAG_HAS_FILL_COLOR) | bit_if(c4, LITEPARSE_VECTOR_FLAG_HAS_CURVE) | bit_if(
                c5,
                LITEPARSE_VECTOR_FLAG_HAS_STROKE_WIDTH,
            ),
    ;
}

/// A packed vector shape passes the reader's checks and reads back as
/// itself, when readable.
pub proof fn lemma_shape_round_trip(sh: VectorShape, where_: Seq<char>, o: VectorShape)
    requires
        shape_readable(sh),
    ensures
        shape_error(shape_record(sh), where_) is None,
        shape_matches(o, shape_record(sh)) ==> same_shape(o, sh),
{
    let f = shape_record(sh).flags;
    let c0 = sh.stroke;
    let c1 = sh.fill;
    let c2 = opt_color(sh.stroke_color).1;
    let c3 = opt_color(sh.fill_color).1;
    let c4 = sh.has_curve;
    assert(f == bit_if(c0, LITEPARSE_VECTOR_FLAG_STROKE) | bit_if(c1, LITEPARSE_VECTOR_FLAG_FILL) | bit_if(
        c2,
        LITEPARSE_VECTOR_FLAG_HAS_STROKE_COLOR,
    ) | bit_if(c3, LITEPARSE_VECTOR_FLAG_HAS_FILL_COLOR) | bit_if(c4, LITEPARSE_VECTOR_FLAG_HAS_CURVE) | bit_if(
        false,
        LITEPARSE_VECTOR_FLAG_HAS_STROKE_WIDTH,
    )) by (bit_vector)
        requires
            f == bit_if(c0, LITEPARSE_VECTOR_FLAG_STROKE) | bit_if(c1, LITEPARSE_VECTOR_FLAG_FILL) | bit_if(
                c2,
                LITEPARSE_VECTOR_FLAG_HAS_STROKE_COLOR,
            ) | bit_if(c3, LITEPARSE_VECTOR_FLAG_HAS_FILL_COLOR) | bit_if(c4, LITEPARSE_VECTOR_FLAG_HAS_CURVE),
    ;
    lemma_vector_bits(c0, c1, c2, c3, c4, false, f);
    lemma_color(sh.stroke_color);
    lemma_color(sh.fill_color);
}

/// A packed vector line passes the reader's checks and reads back as
/// itself, when readable.
pub proof fn lemma_line_round_trip(l: VectorLine, where_: Seq<char>, o: VectorLine)
    requires
        line_readable(l),
    ensures
        line_error(line_record(l), where_) is None,
        line_matches(o, line_record(l)) ==> same_line(o, l),
{
    let r = line_record(l);
    let f = r.flags;
    let c0 = l.stroke;
    let c1 = l.fill;
    let c2 = opt_color(l.stroke_color).1;
    let c3 = opt_color(l.fill_color).1;
    let c5 = l.stroke_width is Some;
    assert(f == bit_if(c0, LITEPARSE_VECTOR_FLAG_STROKE) | bit_if(c1, LITEPARSE_VECTOR_FLAG_FILL) | bit_if(
        c2,
        LITEPARSE_VECTOR_FLAG_HAS_STROKE_COLOR,
    ) | bit_if(c3, LITEPARSE_VECTOR_FLAG_HAS_FILL_COLOR) | bit_if(false, LITEPARSE_VECTOR_FLAG_HAS_CURVE) | bit_if(
        c5,
        LITEPARSE_VECTOR_FLAG_HAS_STROKE_WIDTH,
    )) by (bit_vector)
        requires
            f == bit_if(c0, LITEPARSE_VECTOR_FLAG_STROKE) | bit_if(c1, LITEPARSE_VECTOR_FLAG_FILL) | bit_if(
                c2,
                LITEPARSE_VECTOR_FLAG_HAS_STROKE_COLOR,
            ) | bit_if(c3, LITEPARSE_VECTOR_FLAG_HAS_FILL_COLOR) | bit_if(c5, LITEPARSE_VECTOR_FLAG_HAS_STROKE_WIDTH),
    ;
    lemma_vector_bits(c0, c1, c2, c3, false, c5, f);
    lemma_color(l.stroke_color);
    lemma_color(l.fill_color);
    let zero: u32 = 0;
    assert(f32_finite(zero)) by (bit_vector)
        requires
            zero == 0,
    ;
    let vs = seq![r.x1, r.y1, r.x2, r.y2, r.stroke_width];
    assert forall|i: int| 0 <= i < vs.len() implies f32_finite(#[trigger] vs[i]) by {
        if i < 4 {
            assert(vs[i] == seq![l.x1, l.y1, l.x2, l.y2][i]);
        }
    }
}

/// Reading back the vector graphics of a packed page: both ranges and
/// every shape and line pass the reader's checks, and the vector graphics
/// read from them are the page's own, when those read back (see
/// `vectors_readable`).
pub proof fn lemma_page_vectors_round_trip(v: ContentView, p: PageParts, w: ContentView, where_: Seq<char>, o: VectorGraphics)
    requires
        extends(page_step(v, p), w),
        fits(w),
        vectors_readable(p.vector_graphics),
    ensures
        ({
            let r = page_record(v, p);
            &&& vector_error(w.vector_shapes, w.vector_lines, r, where_) is None
            &&& p.vector_graphics matches Some(vg) ==> (vector_matches(o, w.vector_shapes, w.vector_lines, r)
                ==> same_vectors(o, vg))
        }),
{
    reveal(page_record);
    let r = page_record(v, p);
    let v7 = content_parts(v, p);
    let v8 = fold(v7, list_or_empty(p.blocks), block_stepper());
    let v9 = vectors_step(v8, p.vector_graphics);
    lemma_vectors_to_page(v, p);
    lemma_extends_trans(v9, page_step(v, p), w);
    lemma_extends_vectors(v9, w);
    let shapes = v9.vector_shapes.subrange(v8.vector_shapes.len() as int, v9.vector_shapes.len() as int);
    let lines = v9.vector_lines.subrange(v8.vector_lines.len() as int, v9.vector_lines.len() as int);
    assert(range_of(w.vector_shapes, r.vector_shape_offset, r.vector_shape_count) =~= shapes);
    assert(range_of(w.vector_lines, r.vector_line_offset, r.vector_line_count) =~= lines);
    let sok = |sh: LiteParseVectorShape| shape_error(sh, where_) is None;
    let lok = |l: LiteParseVectorLine| line_error(l, where_) is None;
    assert forall|k: int| 0 <= k < shapes.len() implies sok(#[trigger] shapes[k]) by {
        let vg = p.vector_graphics->0;
        lemma_shape_round_trip(vg.shapes@[k], where_, vg.shapes@[k]);
    }
    assert forall|k: int| 0 <= k < lines.len() implies lok(#[trigger] lines[k]) by {
        let vg = p.vector_graphics->0;
        lemma_line_round_trip(vg.lines@[k], where_, vg.lines@[k]);
    }
    lemma_first_fail(shapes, sok);
    lemma_first_fail(lines, lok);
    if let Some(vg) = p.vector_graphics {
        if vector_matches(o, w.vector_shapes, w.vector_lines, r) {
            assert forall|k: int| 0 <= k < o.shapes@.len() implies same_shape(#[trigger] o.shapes@[k], vg.shapes@[k]) by {
                assert(shape_matches(o.shapes@[k], shapes[k]));
                lemma_shape_round_trip(vg.shapes@[k], where_, o.shapes@[k]);
            }
            assert forall|k: int| 0 <= k < o.lines@.len() implies same_line(#[trigger] o.lines@[k], vg.lines@[k]) by {
                assert(line_matches(o.lines@[k], lines[k]));
                lemma_line_round_trip(vg.lines@[k], where_, o.lines@[k]);
            }
        }
    }
}

proof fn lemma_extends_vectors(a: ContentView, b: ContentView)
    requires
        extends(a, b),
    ensures
        is_prefix(a.vector_shapes, b.vector_shapes),
        is_prefix(a.vector_lines, b.vector_lines),
{
    reveal(extends);
}

} // verus!
