//! Reading back the structure tree of a packed page: its elements'
//! attributes, strings, marked-content ids and annotations, and the shape
//! of the tree.

use vstd::prelude::*;
use vstd::utf8::encode_utf8;
use crate::check::{f32_zero, range_fits};
use crate::content::{lemma_first_fail, opt_view, range_of, str_ok};
use crate::pack::{
    ContentView, PageParts, annotation_stepper, attrs_step, content_parts, content_step, extends, fits, fold,
    form_field_stepper, graphic_stepper, images_step, is_prefix, item_stepper, lemma_content_to_page,
    lemma_extends_fits, lemma_extends_trans, lemma_fold_extends, lemma_fold_next, lemma_fold_take_extends,
    lemma_node_steps_extend, lemma_prefix_trans, lemma_simple_steps_extend, list_or_empty, node_stepper,
    page_record, page_step, parts_well_formed, pooled, shifted, struct_node_stepper, tree_layout, value_bytes,
    F32_ONE,
};
use crate::packing::{PackFrom, all_appended};
use crate::page::{
    AttributeValue, DocumentAnnotation, LiteParsePage, LiteParseStructureAttribute, StructureContent,
    StructureTree, annotation_error, annotation_matches, annotations_error, attribute_error,
    attribute_matches, attributes_error, content_matches, node_error, node_parent_ok, place_of,
    structure_error, tree_records,
};
use crate::records::opt_bytes;
use crate::structure::{
    StructureNodeRecord, forest_matches, lemma_flat_parents, lemma_structure_read_relabeled, parent_of,
    parent_ok, relabeled, LITEPARSE_NO_PARENT,
};
use crate::round_trip::{lemma_read_str, read_back};
use crate::round_trip_parts::{
    annotation_packed_at, annotation_readable, lemma_annotation_round_trip, lemma_fold_pushes,
    lemma_prefix_drop, same_annotation,
};

verus! {

// Attributes.
pub open spec fn same_value(a: AttributeValue, b: AttributeValue) -> bool {
    match (a, b) {
        (AttributeValue::Boolean(x), AttributeValue::Boolean(y)) => x == y,
        (AttributeValue::Number(x), AttributeValue::Number(y)) => x == y,
        (AttributeValue::String(x), AttributeValue::String(y)) => x@ == y@,
        _ => false,
    }
}

pub open spec fn same_attribute(a: (String, AttributeValue), b: (String, AttributeValue)) -> bool {
    a.0@ == b.0@ && same_value(a.1, b.1)
}

/// Attribute `k` of `xs` pooled from `pre` on, in a pool that keeps those
/// bytes, passes the reader's checks and reads back as itself.
pub proof fn lemma_attribute_round_trip(
    pre: Seq<u8>,
    xs: Seq<(String, AttributeValue)>,
    k: int,
    pool: Seq<u8>,
    what: Seq<char>,
    o: (String, AttributeValue),
)
    requires
        0 <= k < xs.len(),
        is_prefix(pre + all_appended::<(String, AttributeValue), LiteParseStructureAttribute>(xs), pool),
        (pre + all_appended::<(String, AttributeValue), LiteParseStructureAttribute>(xs)).len() <= u32::MAX,
    ensures
        attribute_error(pool, pooled::<(String, AttributeValue), LiteParseStructureAttribute>(pre.len(), xs)[k], what)
            is None,
        attribute_matches(o, pool, pooled::<(String, AttributeValue), LiteParseStructureAttribute>(pre.len(), xs)[k])
            ==> same_attribute(o, xs[k]),
{
    let x = xs[k];
    crate::round_trip::lemma_appended_at::<(String, AttributeValue), LiteParseStructureAttribute>(pre, xs, k);
    let q = pre + all_appended::<(String, AttributeValue), LiteParseStructureAttribute>(xs.take(k));
    let all = pre + all_appended::<(String, AttributeValue), LiteParseStructureAttribute>(xs);
    lemma_prefix_trans(q + LiteParseStructureAttribute::appended(&x), all, pool);
    let q1 = q + value_bytes(x.1);
    assert(q + LiteParseStructureAttribute::appended(&x) =~= q1 + encode_utf8(x.0@));
    lemma_prefix_drop(q1, encode_utf8(x.0@), pool);
    lemma_read_str(pool, q1, Some(x.0));
    match x.1 {
        AttributeValue::String(s) => {
            assert(opt_bytes(Some(s)) == value_bytes(x.1));
            lemma_read_str(pool, q, Some(s));
        },
        AttributeValue::Boolean(b) => {
            let one = F32_ONE;
            let zero: u32 = 0;
            assert(!f32_zero(one) && f32_zero(zero)) by (bit_vector)
                requires
                    one == 0x3f80_0000u32,
                    zero == 0,
            ;
        },
        AttributeValue::Number(_) => {},
    }
}

// Annotations of an element.
/// Annotations packed one after the other onto arrays `u`, in arrays `w`
/// that extend what packing them gave: their range passes every check the
/// reader makes, and the annotations read from it are those packed, in
/// order, when they read back.
pub proof fn lemma_annotations_run(
    u: ContentView,
    anns: Seq<DocumentAnnotation>,
    w: ContentView,
    where_: Seq<char>,
    os: Seq<DocumentAnnotation>,
)
    requires
        extends(fold(u, anns, annotation_stepper()), w),
        fits(fold(u, anns, annotation_stepper())),
        forall|k: int| 0 <= k < anns.len() ==> annotation_readable(#[trigger] anns[k]),
    ensures
        u.annotations.len() + anns.len() <= u32::MAX,
        annotations_error(
            w.pool,
            w.quadpoints,
            w.annotations,
            u.annotations.len() as u32,
            anns.len() as u32,
            where_,
            "annotations"@,
        ) is None,
        (os.len() == anns.len() && (forall|k: int|
            0 <= k < os.len() ==> annotation_matches(
                #[trigger] os[k],
                w.pool,
                w.quadpoints,
                range_of(w.annotations, u.annotations.len() as u32, anns.len() as u32)[k],
            ))) ==> forall|k: int| 0 <= k < os.len() ==> same_annotation(#[trigger] os[k], anns[k]),
{
    let f = annotation_stepper();
    let arr = |x: ContentView| x.annotations;
    let rec = |x: ContentView, a: DocumentAnnotation| crate::pack::annotation_step(x, a).annotations.last();
    lemma_fold_pushes(u, anns, f, arr, rec);
    let e = fold(u, anns, f);
    lemma_extends_annotations(e, w);
    lemma_simple_steps_extend();
    let off = u.annotations.len() as u32;
    let count = anns.len() as u32;
    let rs = range_of(w.annotations, off, count);
    assert(rs.len() == anns.len());
    assert forall|k: int| 0 <= k < anns.len() implies #[trigger] annotation_packed_at(u, anns, w, u.annotations.len(), k) by {
        let wk = fold(u, anns.take(k), f);
        let s = crate::pack::annotation_step(wk, anns[k]);
        assert(arr(e)[u.annotations.len() + k] == rec(wk, anns[k]));
        lemma_fold_next(u, anns, f, k);
        lemma_fold_take_extends(u, anns, f, k + 1);
        lemma_extends_trans(s, e, w);
        lemma_extends_fits(s, e);
    }
    let ok = |k: int| annotation_error(w.pool, w.quadpoints, rs[k], place_of(where_, "annotations"@, k as nat)) is None;
    assert forall|k: int| 0 <= k < rs.len() implies #[trigger] ok(k) by {
        assert(annotation_packed_at(u, anns, w, u.annotations.len(), k));
        assert(rs[k] == w.annotations[u.annotations.len() + k]);
        lemma_annotation_round_trip(
            fold(u, anns.take(k), f),
            anns[k],
            w,
            place_of(where_, "annotations"@, k as nat),
            anns[k],
        );
    }
    crate::page::lemma_first_bad(ok, rs.len() as int);
    if os.len() == anns.len() && (forall|k: int|
        0 <= k < os.len() ==> annotation_matches(#[trigger] os[k], w.pool, w.quadpoints, rs[k])) {
        assert forall|k: int| 0 <= k < os.len() implies same_annotation(#[trigger] os[k], anns[k]) by {
            assert(annotation_packed_at(u, anns, w, u.annotations.len(), k));
            assert(rs[k] == w.annotations[u.annotations.len() + k]);
            assert(annotation_matches(os[k], w.pool, w.quadpoints, rs[k]));
            lemma_annotation_round_trip(fold(u, anns.take(k), f), anns[k], w, Seq::empty(), os[k]);
        }
    }
}

proof fn lemma_extends_annotations(a: ContentView, b: ContentView)
    requires
        extends(a, b),
    ensures
        is_prefix(a.annotations, b.annotations),
{
    reveal(extends);
}

// Elements.
/// An element's content reads back as itself when none of its optional
/// strings is empty and its annotations read back.
pub open spec fn content_readable(c: StructureContent) -> bool {
    &&& read_back(c.id) == opt_view(c.id)
    &&& read_back(c.actual_text) == opt_view(c.actual_text)
    &&& read_back(c.alt_text) == opt_view(c.alt_text)
    &&& read_back(c.title) == opt_view(c.title)
    &&& forall|k: int| 0 <= k < c.annotations@.len() ==> annotation_readable(#[trigger] c.annotations@[k])
}

pub open spec fn same_content(a: StructureContent, b: StructureContent) -> bool {
    &&& a.element_type@ == b.element_type@
    &&& opt_view(a.id) == opt_view(b.id)
    &&& opt_view(a.actual_text) == opt_view(b.actual_text)
    &&& opt_view(a.alt_text) == opt_view(b.alt_text)
    &&& opt_view(a.title) == opt_view(b.title)
    &&& a.attributes@.len() == b.attributes@.len()
    &&& forall|k: int| 0 <= k < a.attributes@.len() ==> same_attribute(#[trigger] a.attributes@[k], b.attributes@[k])
    &&& a.marked_content_ids@ == b.marked_content_ids@
    &&& a.annotations@.len() == b.annotations@.len()
    &&& forall|k: int| 0 <= k < a.annotations@.len() ==> same_annotation(#[trigger] a.annotations@[k], b.annotations@[k])
}

proof fn lemma_extends_content(a: ContentView, b: ContentView)
    requires
        extends(a, b),
    ensures
        is_prefix(a.pool, b.pool),
        is_prefix(a.structure_attributes, b.structure_attributes),
        is_prefix(a.mcids, b.mcids),
{
    reveal(extends);
}

/// An element's content packed onto arrays `v`, in arrays `w` that extend
/// what packing it gave: its node record names the parent and depth it
/// was packed with, passes every check the reader makes of its content,
/// and reads back as the content packed, when readable.
#[verifier::spinoff_prover]
#[verifier::rlimit(60)]
pub proof fn lemma_content_round_trip(
    v: ContentView,
    c: StructureContent,
    parent: u32,
    depth: u32,
    w: ContentView,
    what: Seq<char>,
    o: StructureContent,
)
    requires
        extends(content_step(v, c, parent, depth), w),
        fits(content_step(v, c, parent, depth)),
        content_readable(c),
    ensures
        ({
            let n = content_step(v, c, parent, depth).structure_nodes.last();
            &&& n.parent_index == parent && n.depth == depth
            &&& attributes_error(w.pool, w.structure_attributes, n, what) is None
            &&& str_ok(w.pool, n.element_type) && str_ok(w.pool, n.id) && str_ok(w.pool, n.actual_text)
            &&& str_ok(w.pool, n.alt_text) && str_ok(w.pool, n.title)
            &&& range_fits(n.mcid_offset, n.mcid_count, w.mcids.len())
            &&& annotations_error(
                w.pool,
                w.quadpoints,
                w.annotations,
                n.annotation_offset,
                n.annotation_count,
                what,
                "annotations"@,
            ) is None
            &&& content_matches(o, w.pool, w.structure_attributes, w.mcids, w.annotations, w.quadpoints, n)
                ==> same_content(o, c)
        }),
{
    let s = content_step(v, c, parent, depth);
    let n = s.structure_nodes.last();
    let w1 = attrs_step(v, c);
    let w2 = fold(w1, c.annotations@, annotation_stepper());
    lemma_simple_steps_extend();
    lemma_fold_extends(w1, c.annotations@, annotation_stepper());
    assert(extends(w2, s)) by {
        reveal(extends);
    }
    lemma_extends_trans(w1, w2, s);
    lemma_extends_trans(w1, s, w);
    lemma_extends_trans(w2, s, w);
    lemma_extends_fits(w2, s);
    lemma_extends_fits(w1, s);
    lemma_extends_content(w1, w);
    lemma_extends_content(s, w);
    // Attributes.
    let xs = c.attributes@;
    let ps = pooled::<(String, AttributeValue), LiteParseStructureAttribute>(v.pool.len(), xs);
    let ar = range_of(w.structure_attributes, n.attribute_offset, n.attribute_count);
    assert(ar =~= ps) by {
        assert forall|i: int| 0 <= i < ps.len() implies #[trigger] w.structure_attributes[v.structure_attributes.len() + i]
            == ps[i] by {
            assert(w.structure_attributes[v.structure_attributes.len() + i] == w1.structure_attributes[v.structure_attributes.len() + i]);
        }
    }
    let aok = |a: LiteParseStructureAttribute| attribute_error(w.pool, a, what) is None;
    assert forall|k: int| 0 <= k < ar.len() implies aok(#[trigger] ar[k]) by {
        lemma_attribute_round_trip(v.pool, xs, k, w.pool, what, xs[k]);
    }
    lemma_first_fail(ar, aok);
    // Strings.
    let p0 = w2.pool;
    let p1 = p0 + encode_utf8(c.element_type@);
    let p2 = p1 + opt_bytes(c.id);
    let p3 = p2 + opt_bytes(c.actual_text);
    let p4 = p3 + opt_bytes(c.alt_text);
    assert(s.pool =~= p4 + opt_bytes(c.title));
    lemma_prefix_drop(p4, opt_bytes(c.title), w.pool);
    lemma_prefix_drop(p3, opt_bytes(c.alt_text), w.pool);
    lemma_prefix_drop(p2, opt_bytes(c.actual_text), w.pool);
    lemma_prefix_drop(p1, opt_bytes(c.id), w.pool);
    lemma_read_str(w.pool, p0, Some(c.element_type));
    lemma_read_str(w.pool, p1, c.id);
    lemma_read_str(w.pool, p2, c.actual_text);
    lemma_read_str(w.pool, p3, c.alt_text);
    lemma_read_str(w.pool, p4, c.title);
    // Marked-content ids.
    let ids = c.marked_content_ids@;
    assert(s.mcids == w2.mcids + ids);
    assert(range_of(w.mcids, n.mcid_offset, n.mcid_count) =~= ids) by {
        assert forall|i: int| 0 <= i < ids.len() implies #[trigger] w.mcids[w2.mcids.len() + i] == ids[i] by {
            assert(w.mcids[w2.mcids.len() + i] == s.mcids[w2.mcids.len() + i]);
        }
    }
    // Annotations.
    lemma_annotations_run(w1, c.annotations@, w, what, o.annotations@);
    if content_matches(o, w.pool, w.structure_attributes, w.mcids, w.annotations, w.quadpoints, n) {
        assert forall|k: int| 0 <= k < o.attributes@.len() implies same_attribute(
            #[trigger] o.attributes@[k],
            xs[k],
        ) by {
            assert(attribute_matches(o.attributes@[k], w.pool, ar[k]));
            lemma_attribute_round_trip(v.pool, xs, k, w.pool, what, o.attributes@[k]);
        }
    }
}

// Trees.
proof fn lemma_annotations_keep_nodes(u: ContentView, anns: Seq<DocumentAnnotation>)
    ensures
        fold(u, anns, annotation_stepper()).structure_nodes == u.structure_nodes,
    decreases anns.len(),
{
    if anns.len() > 0 {
        lemma_annotations_keep_nodes(u, anns.drop_last());
    }
}

/// Element `k` of the layout of `t`, packed from arrays `v` on, was
/// packed onto the arrays `w` extends, its node record at
/// `v.structure_nodes.len() + k`.
pub open spec fn element_packed_at(v: ContentView, t: StructureTree, w: ContentView, k: int) -> bool {
    let off = v.structure_nodes.len();
    let l = tree_layout(t);
    let s = content_step(
        fold(v, l.take(k), node_stepper(t, off)),
        t.contents@[l[k].node as int],
        shifted(l[k].parent_index, off),
        l[k].depth,
    );
    &&& w.structure_nodes[off + k] == s.structure_nodes.last()
    &&& extends(s, w)
    &&& fits(s)
}

/// The arrays a page's structure tree is packed onto.
pub open spec fn before_tree(v: ContentView, p: PageParts) -> ContentView {
    let v1 = fold(v, p.text_items@, item_stepper());
    let v2 = fold(v1, p.graphics@, graphic_stepper());
    let v3 = fold(v2, p.struct_nodes@, struct_node_stepper());
    let v4 = images_step(v3, p.image_refs@);
    let v5 = fold(v4, list_or_empty(p.annotations), annotation_stepper());
    fold(v5, list_or_empty(p.form_fields), form_field_stepper())
}

/// Where a packed page's structure nodes stand, and how each was packed.
#[verifier::spinoff_prover]
#[verifier::rlimit(40)]
proof fn lemma_page_tree_at(v: ContentView, p: PageParts, w: ContentView, t: StructureTree)
    requires
        extends(page_step(v, p), w),
        fits(w),
        p.structure_tree == Some(t),
    ensures
        ({
            let v6 = before_tree(v, p);
            let r = page_record(v, p);
            let l = tree_layout(t);
            &&& r.structure_node_offset == v6.structure_nodes.len()
            &&& r.structure_node_count == l.len()
            &&& v6.structure_nodes.len() + l.len() <= w.structure_nodes.len()
            &&& forall|k: int| 0 <= k < l.len() ==> #[trigger] element_packed_at(v6, t, w, k)
        }),
{
    reveal(page_record);
    let v6 = before_tree(v, p);
    let off = v6.structure_nodes.len();
    let l = tree_layout(t);
    let f = node_stepper(t, off);
    let arr = |x: ContentView| x.structure_nodes;
    let rec = |x: ContentView, e: StructureNodeRecord<u32>|
        content_step(x, t.contents@[e.node as int], shifted(e.parent_index, off), e.depth).structure_nodes.last();
    assert forall|x: ContentView, e: StructureNodeRecord<u32>| #[trigger] arr(f(x, e)) == arr(x).push(rec(x, e)) by {
        let c = t.contents@[e.node as int];
        lemma_annotations_keep_nodes(attrs_step(x, c), c.annotations@);
    }
    lemma_fold_pushes(v6, l, f, arr, rec);
    let v7 = fold(v6, l, f);
    assert(v7 == content_parts(v, p));
    lemma_content_to_page(v, p);
    lemma_extends_trans(v7, page_step(v, p), w);
    lemma_extends_nodes(v7, w);
    lemma_node_steps_extend(t, off);
    assert forall|k: int| 0 <= k < l.len() implies #[trigger] element_packed_at(v6, t, w, k) by {
        let wk = fold(v6, l.take(k), f);
        let s = content_step(wk, t.contents@[l[k].node as int], shifted(l[k].parent_index, off), l[k].depth);
        assert(arr(v7)[off + k] == rec(wk, l[k]));
        lemma_fold_next(v6, l, f, k);
        lemma_fold_take_extends(v6, l, f, k + 1);
        lemma_extends_trans(s, v7, w);
        lemma_extends_fits(s, w);
    }
}

proof fn lemma_extends_nodes(a: ContentView, b: ContentView)
    requires
        extends(a, b),
    ensures
        is_prefix(a.structure_nodes, b.structure_nodes),
{
    reveal(extends);
}

/// Whether every content of a page's structure tree, if any, reads back.
pub open spec fn tree_readable(t: Option<StructureTree>) -> bool {
    t matches Some(tr) ==> forall|k: int| 0 <= k < tr.contents@.len() ==> content_readable(#[trigger] tr.contents@[k])
}

/// The content index each element of the layout of `t` names, by the
/// element's place in the layout.
pub open spec fn layout_node(t: StructureTree) -> spec_fn(u32) -> u32 {
    |j: u32| tree_layout(t)[j as int].node
}

/// `o` is a tree the reader gives from the structure nodes of page record
/// `r` in arrays `w`.
pub open spec fn tree_read(o: StructureTree, w: ContentView, r: LiteParsePage) -> bool {
    let nodes = range_of(w.structure_nodes, r.structure_node_offset, r.structure_node_count);
    &&& o.contents@.len() == nodes.len()
    &&& forall|k: int|
        0 <= k < nodes.len() ==> content_matches(
            #[trigger] o.contents@[k],
            w.pool,
            w.structure_attributes,
            w.mcids,
            w.annotations,
            w.quadpoints,
            nodes[k],
        )
    &&& forest_matches(o.roots@, tree_records(nodes), r.structure_node_offset as nat)
}

/// `o` holds the tree `t` in pre-order: its contents are those of `t`'s
/// elements in pre-order, and its elements, in the shape of `t`, name
/// them by place.
pub open spec fn same_structure(o: StructureTree, t: StructureTree) -> bool {
    let l = tree_layout(t);
    &&& o.contents@.len() == l.len()
    &&& forall|k: int| 0 <= k < l.len() ==> same_content(#[trigger] o.contents@[k], t.contents@[l[k].node as int])
    &&& o.roots@.len() == t.roots@.len()
    &&& forall|k: int| 0 <= k < t.roots@.len() ==> relabeled(#[trigger] o.roots@[k], t.roots@[k], layout_node(t))
}

/// Node `k` of a packed page's tree passes every check the reader makes of
/// it, and a content read from it is the content its element packed.
#[verifier::spinoff_prover]
#[verifier::rlimit(60)]
proof fn lemma_tree_node(v: ContentView, p: PageParts, w: ContentView, t: StructureTree, where_: Seq<char>, k: int, oc: StructureContent)
    requires
        extends(page_step(v, p), w),
        fits(w),
        p.structure_tree == Some(t),
        parts_well_formed(p),
        tree_readable(p.structure_tree),
        0 <= k < tree_layout(t).len(),
    ensures
        ({
            let r = page_record(v, p);
            let nodes = range_of(w.structure_nodes, r.structure_node_offset, r.structure_node_count);
            &&& node_error(
                w.pool,
                w.structure_attributes,
                w.mcids,
                w.annotations,
                w.quadpoints,
                nodes[k],
                r.structure_node_offset as nat,
                k as nat,
                where_,
            ) is None
            &&& content_matches(oc, w.pool, w.structure_attributes, w.mcids, w.annotations, w.quadpoints, nodes[k])
                ==> same_content(oc, t.contents@[tree_layout(t)[k].node as int])
        }),
{
    let r = page_record(v, p);
    let v6 = before_tree(v, p);
    let off = v6.structure_nodes.len();
    let l = tree_layout(t);
    let f = node_stepper(t, off);
    lemma_page_tree_at(v, p, w, t);
    lemma_node_parent_ok(v, p, w, t, k);
    let nodes = range_of(w.structure_nodes, r.structure_node_offset, r.structure_node_count);
    assert(element_packed_at(v6, t, w, k));
    assert(nodes[k] == w.structure_nodes[off + k]);
    lemma_content_round_trip(
        fold(v6, l.take(k), f),
        t.contents@[l[k].node as int],
        shifted(l[k].parent_index, off),
        l[k].depth,
        w,
        place_of(where_, "structure_nodes"@, k as nat),
        oc,
    );
}

/// Node `k` of a packed page's tree names no parent, or an earlier node of
/// the page.
#[verifier::spinoff_prover]
#[verifier::rlimit(40)]
proof fn lemma_node_parent_ok(v: ContentView, p: PageParts, w: ContentView, t: StructureTree, k: int)
    requires
        extends(page_step(v, p), w),
        fits(w),
        p.structure_tree == Some(t),
        0 <= k < tree_layout(t).len(),
    ensures
        ({
            let r = page_record(v, p);
            let nodes = range_of(w.structure_nodes, r.structure_node_offset, r.structure_node_count);
            node_parent_ok(nodes[k], r.structure_node_offset as nat, k as nat)
        }),
{
    let r = page_record(v, p);
    let v6 = before_tree(v, p);
    let off = v6.structure_nodes.len();
    let l = tree_layout(t);
    lemma_page_tree_at(v, p, w, t);
    let nodes = range_of(w.structure_nodes, r.structure_node_offset, r.structure_node_count);
    assert(element_packed_at(v6, t, w, k));
    assert(nodes[k] == w.structure_nodes[off + k]);
    assert(nodes[k].parent_index == shifted(l[k].parent_index, off));
    crate::structure::lemma_flat_forest_lengths(t.roots@, LITEPARSE_NO_PARENT, 0, 0);
    lemma_flat_parents(t.roots@, 0);
    assert(parent_ok(l, 0, k));
}

/// Reading back the structure tree of a packed page: every node of its
/// range passes the checks the reader makes, and a tree read from it
/// holds the page's tree, its contents in pre-order, when those read back
/// (see `tree_readable`).
#[verifier::spinoff_prover]
#[verifier::rlimit(60)]
pub proof fn lemma_page_tree_round_trip(v: ContentView, p: PageParts, w: ContentView, where_: Seq<char>, o: StructureTree)
    requires
        extends(page_step(v, p), w),
        fits(w),
        parts_well_formed(p),
        tree_readable(p.structure_tree),
    ensures
        ({
            let r = page_record(v, p);
            &&& structure_error(
                w.pool,
                w.structure_nodes,
                w.structure_attributes,
                w.mcids,
                w.annotations,
                w.quadpoints,
                r.structure_node_offset,
                r.structure_node_count,
                where_,
            ) is None
            &&& p.structure_tree matches Some(t) ==> (tree_read(o, w, r) ==> same_structure(o, t))
        }),
{
    let r = page_record(v, p);
    match p.structure_tree {
        None => {
            reveal(page_record);
        },
        Some(t) => {
            let l = tree_layout(t);
            lemma_page_tree_at(v, p, w, t);
            let nodes = range_of(w.structure_nodes, r.structure_node_offset, r.structure_node_count);
            assert(nodes.len() == l.len());
            let ok = |k: int|
                node_error(
                    w.pool,
                    w.structure_attributes,
                    w.mcids,
                    w.annotations,
                    w.quadpoints,
                    nodes[k],
                    r.structure_node_offset as nat,
                    k as nat,
                    where_,
                ) is None;
            assert forall|k: int| 0 <= k < nodes.len() implies #[trigger] ok(k) by {
                lemma_tree_node(v, p, w, t, where_, k, t.contents@[l[k].node as int]);
            }
            crate::page::lemma_first_bad(ok, nodes.len() as int);
            if tree_read(o, w, r) {
                lemma_tree_shape(v, p, w, t, o);
                assert forall|k: int| 0 <= k < l.len() implies same_content(
                    #[trigger] o.contents@[k],
                    t.contents@[l[k].node as int],
                ) by {
                    lemma_tree_node(v, p, w, t, Seq::empty(), k, o.contents@[k]);
                }
            }
        },
    }
}

/// A tree read from a packed page's structure nodes has the shape of the
/// page's tree.
#[verifier::spinoff_prover]
#[verifier::rlimit(60)]
proof fn lemma_tree_shape(v: ContentView, p: PageParts, w: ContentView, t: StructureTree, o: StructureTree)
    requires
        extends(page_step(v, p), w),
        fits(w),
        p.structure_tree == Some(t),
        tree_read(o, w, page_record(v, p)),
    ensures
        o.roots@.len() == t.roots@.len(),
        forall|k: int| 0 <= k < t.roots@.len() ==> relabeled(#[trigger] o.roots@[k], t.roots@[k], layout_node(t)),
{
    let r = page_record(v, p);
    let v6 = before_tree(v, p);
    let off = v6.structure_nodes.len();
    let l = tree_layout(t);
    let f = node_stepper(t, off);
    lemma_page_tree_at(v, p, w, t);
    let nodes = range_of(w.structure_nodes, r.structure_node_offset, r.structure_node_count);
    let recs = tree_records(nodes);
    crate::structure::lemma_flat_forest_lengths(t.roots@, LITEPARSE_NO_PARENT, 0, 0);
    lemma_flat_parents(t.roots@, 0);
    assert forall|j: int| 0 <= j < recs.len() implies #[trigger] parent_of(recs, off, j) == parent_of(l, 0, j)
        && layout_node(t)(recs[j].node) == l[j].node by {
        lemma_node_parent(v, p, w, t, j);
    }
    lemma_structure_read_relabeled(t.roots@, 0, recs, off, o.roots@, layout_node(t));
}

/// Node `j` of a packed page's tree names, within the page's range, the
/// parent its element has in the layout.
#[verifier::spinoff_prover]
#[verifier::rlimit(40)]
proof fn lemma_node_parent(v: ContentView, p: PageParts, w: ContentView, t: StructureTree, j: int)
    requires
        extends(page_step(v, p), w),
        fits(w),
        p.structure_tree == Some(t),
        0 <= j < tree_layout(t).len(),
    ensures
        ({
            let r = page_record(v, p);
            let recs = tree_records(range_of(w.structure_nodes, r.structure_node_offset, r.structure_node_count));
            &&& parent_of(recs, r.structure_node_offset as nat, j) == parent_of(tree_layout(t), 0, j)
            &&& layout_node(t)(recs[j].node) == tree_layout(t)[j].node
        }),
{
    let r = page_record(v, p);
    let v6 = before_tree(v, p);
    let off = v6.structure_nodes.len();
    let l = tree_layout(t);
    lemma_page_tree_at(v, p, w, t);
    let nodes = range_of(w.structure_nodes, r.structure_node_offset, r.structure_node_count);
    assert(element_packed_at(v6, t, w, j));
    assert(nodes[j] == w.structure_nodes[off + j]);
    assert(nodes[j].parent_index == shifted(l[j].parent_index, off));
    crate::structure::lemma_flat_forest_lengths(t.roots@, LITEPARSE_NO_PARENT, 0, 0);
    lemma_flat_parents(t.roots@, 0);
    assert(parent_ok(l, 0, j));
}

} // verus!
