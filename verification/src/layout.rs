//! `repr(C)` layout of the projected-layout records, computed from the
//! sizes and alignments of their field types so foreign runtimes can check
//! their own struct descriptions at load time.

use vstd::prelude::*;
use vstd::layout::{size_of, align_of};
use vstd::arithmetic::power2::is_pow2;

verus! {

broadcast use vstd::layout::group_layout_axioms;

/// Size and alignment of one field.
#[derive(Clone, Copy, Debug, PartialEq, Eq, Structural)]
pub struct FieldShape {
    pub size: usize,
    pub align: usize,
}

/// The smallest multiple of `a` that is at least `x`.
pub open spec fn round_up(x: nat, a: nat) -> nat {
    if a == 0 {
        x
    } else {
        (((x + a - 1) as nat) / a) * a
    }
}

/// Offset of field `i` under `repr(C)`: each field starts at the first
/// multiple of its alignment after the end of the previous one.
pub open spec fn field_offset(fields: Seq<FieldShape>, i: nat) -> nat
    decreases i,
{
    if i == 0 {
        0
    } else {
        round_up(
            field_offset(fields, (i - 1) as nat) + fields[i - 1].size as nat,
            fields[i as int].align as nat,
        )
    }
}

/// End of the first `n` fields.
pub open spec fn fields_end(fields: Seq<FieldShape>, n: nat) -> nat {
    if n == 0 {
        0
    } else {
        field_offset(fields, (n - 1) as nat) + fields[n - 1].size as nat
    }
}

/// Largest alignment of the first `n` fields, at least 1.
pub open spec fn max_align(fields: Seq<FieldShape>, n: nat) -> nat
    decreases n,
{
    if n == 0 {
        1
    } else {
        let a = fields[n - 1].align as nat;
        let m = max_align(fields, (n - 1) as nat);
        if a > m {
            a
        } else {
            m
        }
    }
}

pub open spec fn struct_align(fields: Seq<FieldShape>) -> nat {
    max_align(fields, fields.len())
}

/// Size of the struct: the end of its last field rounded up to its
/// alignment.
pub open spec fn struct_size(fields: Seq<FieldShape>) -> nat {
    round_up(fields_end(fields, fields.len()), struct_align(fields))
}

/// Field lists this module lays out: few fields of small size.
pub open spec fn small_fields(fields: Seq<FieldShape>) -> bool {
    &&& fields.len() <= 64
    &&& forall|i: int|
        0 <= i < fields.len() ==> 1 <= (#[trigger] fields[i]).align <= 4096 && fields[i].size
            <= 4096
}

/// A computed `repr(C)` layout.
pub struct StructLayout {
    pub size: usize,
    pub align: usize,
    pub offsets: Vec<usize>,
}

proof fn lemma_round_up(x: nat, a: nat)
    requires
        a >= 1,
    ensures
        x <= round_up(x, a) <= x + a - 1,
        round_up(x, a) % a == 0,
{
    let q = ((x + a - 1) as nat) / a;
    let r = ((x + a - 1) as nat) % a;
    assert(q * a + r == x + a - 1 && 0 <= r < a) by (nonlinear_arith)
        requires
            q == ((x + a - 1) as nat) / a,
            r == ((x + a - 1) as nat) % a,
            a >= 1,
    ;
    assert((q * a) % a == 0) by (nonlinear_arith)
        requires
            a >= 1,
    ;
}

proof fn lemma_offset_bound(fields: Seq<FieldShape>, i: nat)
    requires
        small_fields(fields),
        i < fields.len(),
    ensures
        field_offset(fields, i) <= i * 8192,
        field_offset(fields, i) % (fields[i as int].align as nat) == 0,
    decreases i,
{
    if i > 0 {
        lemma_offset_bound(fields, (i - 1) as nat);
        let end = field_offset(fields, (i - 1) as nat) + fields[i - 1].size as nat;
        lemma_round_up(end, fields[i as int].align as nat);
    } else {
        assert(0nat % (fields[0].align as nat) == 0);
    }
}

proof fn lemma_max_align_bound(fields: Seq<FieldShape>, n: nat)
    requires
        small_fields(fields),
        n <= fields.len(),
    ensures
        1 <= max_align(fields, n) <= 4096,
        forall|i: int| 0 <= i < n ==> (#[trigger] fields[i]).align <= max_align(fields, n),
    decreases n,
{
    if n > 0 {
        lemma_max_align_bound(fields, (n - 1) as nat);
    }
}

/// Lay out `fields` in order, as `repr(C)` does.
pub fn repr_c_layout(fields: &[FieldShape]) -> (l: StructLayout)
    requires
        small_fields(fields@),
    ensures
        l.offsets@.len() == fields@.len(),
        forall|i: int| 0 <= i < fields@.len() ==> l.offsets@[i] == field_offset(fields@, i as nat),
        l.align == struct_align(fields@),
        l.size == struct_size(fields@),
{
    let mut offsets: Vec<usize> = Vec::new();
    let mut end: usize = 0;
    let mut align: usize = 1;
    let mut i: usize = 0;
    while i < fields.len()
        invariant
            0 <= i <= fields@.len(),
            small_fields(fields@),
            offsets@.len() == i,
            forall|k: int| 0 <= k < i ==> offsets@[k] == field_offset(fields@, k as nat),
            end == fields_end(fields@, i as nat),
            end <= i * 8192,
            align == max_align(fields@, i as nat),
            1 <= align <= 4096,
        decreases fields@.len() - i,
    {
        let shape = fields[i];
        proof {
            lemma_round_up(end as nat, shape.align as nat);
            lemma_max_align_bound(fields@, i as nat + 1);
        }
        let offset = (end + shape.align - 1) / shape.align * shape.align;
        proof {
            let a = shape.align as nat;
            if i == 0 {
                assert(((a - 1) as nat) / a == 0) by (nonlinear_arith)
                    requires
                        a >= 1,
                ;
            }
            assert(offset == round_up(end as nat, a));
            assert(offset == field_offset(fields@, i as nat));
        }
        let ghost prev = offsets@;
        offsets.push(offset);
        assert(offsets@ == prev.push(offset));
        end = offset + shape.size;
        assert(end == fields_end(fields@, i as nat + 1));
        if shape.align > align {
            align = shape.align;
        }
        i = i + 1;
    }
    proof {
        lemma_round_up(end as nat, align as nat);
    }
    let size = (end + align - 1) / align * align;
    StructLayout { size, align, offsets }
}

/// Fields no larger than `s` bytes and no more aligned than `a`.
pub open spec fn bounded_fields(fields: Seq<FieldShape>, s: nat, a: nat) -> bool {
    forall|i: int|
        0 <= i < fields.len() ==> 1 <= (#[trigger] fields[i]).align <= a && fields[i].size <= s
}

proof fn lemma_end_bound(fields: Seq<FieldShape>, n: nat, s: nat, a: nat)
    requires
        bounded_fields(fields, s, a),
        n <= fields.len(),
    ensures
        fields_end(fields, n) <= n * (s + a),
        1 <= max_align(fields, n) <= (if a >= 1 { a } else { 1 }),
    decreases n,
{
    if n > 0 {
        lemma_end_bound(fields, (n - 1) as nat, s, a);
        let prev = fields_end(fields, (n - 1) as nat);
        if n > 1 {
            assert(fields_end(fields, (n - 1) as nat) == field_offset(fields, (n - 2) as nat)
                + fields[n - 2].size as nat);
            assert(field_offset(fields, (n - 1) as nat) == round_up(
                prev,
                fields[n - 1].align as nat,
            ));
            lemma_round_up(prev, fields[n - 1].align as nat);
        } else {
            assert(field_offset(fields, 0) == 0);
        }
        assert(n * (s + a) == (n - 1) * (s + a) + (s + a)) by (nonlinear_arith);
    }
}

/// Size and alignment bounds of a struct built from bounded fields.
pub proof fn lemma_struct_bound(fields: Seq<FieldShape>, s: nat, a: nat)
    requires
        bounded_fields(fields, s, a),
        a >= 1,
    ensures
        struct_size(fields) <= fields.len() * (s + a) + a,
        1 <= struct_align(fields) <= a,
{
    lemma_end_bound(fields, fields.len(), s, a);
    lemma_round_up(fields_end(fields, fields.len()), struct_align(fields));
}

/// Properties every `repr(C)` layout has: each field starts at a multiple
/// of its alignment, fields follow one another without overlapping, and the
/// size is a multiple of the struct's alignment that covers every field.
pub proof fn lemma_repr_c_well_formed(fields: Seq<FieldShape>)
    requires
        small_fields(fields),
    ensures
        forall|i: int|
            0 <= i < fields.len() ==> field_offset(fields, i as nat) % (
            #[trigger] fields[i]).align as nat == 0,
        forall|i: int|
            0 <= i < fields.len() - 1 ==> field_offset(fields, i as nat) + (#[trigger] fields[i]).size
                <= field_offset(fields, (i + 1) as nat),
        fields_end(fields, fields.len()) <= struct_size(fields),
        struct_size(fields) % struct_align(fields) == 0,
        forall|i: int| 0 <= i < fields.len() ==> (#[trigger] fields[i]).align <= struct_align(fields),
{
    assert forall|i: int| 0 <= i < fields.len() implies field_offset(fields, i as nat) % (
    #[trigger] fields[i]).align as nat == 0 by {
        lemma_offset_bound(fields, i as nat);
    }
    assert forall|i: int| 0 <= i < fields.len() - 1 implies field_offset(fields, i as nat) + (
    #[trigger] fields[i]).size <= field_offset(fields, (i + 1) as nat) by {
        lemma_round_up(
            field_offset(fields, i as nat) + fields[i].size as nat,
            fields[i + 1].align as nat,
        );
    }
    lemma_max_align_bound(fields, fields.len());
    lemma_round_up(fields_end(fields, fields.len()), struct_align(fields));
}

} // verus!

verus! {

/// Shape of a field of type `T`.
pub open spec fn shape_of<T>() -> FieldShape {
    FieldShape { size: size_of::<T>() as usize, align: align_of::<T>() as usize }
}

/// Shape of a field whose type is a struct laid out from `fields`.
pub open spec fn nested(fields: Seq<FieldShape>) -> FieldShape {
    FieldShape { size: struct_size(fields) as usize, align: struct_align(fields) as usize }
}

/// `n` fields of one shape.
pub open spec fn repeat(s: FieldShape, n: nat) -> Seq<FieldShape> {
    Seq::new(n, |_i: int| s)
}

// Single-precision fields are described by `u32`, which has the size and
// alignment of `f32`; pointers by `usize`, which has the size and alignment
// of a pointer to a sized type.
/// `LiteParseLayoutBytes`: `ptr`, `len`.
pub open spec fn layout_bytes_fields() -> Seq<FieldShape> {
    seq![shape_of::<usize>(), shape_of::<u64>()]
}

/// `LiteParseRect`: `x`, `y`, `width`, `height`.
pub open spec fn rect_fields() -> Seq<FieldShape> {
    repeat(shape_of::<u32>(), 4)
}

/// `LiteParseProjectedSpan`, in declaration order.
pub open spec fn span_fields() -> Seq<FieldShape> {
    repeat(nested(layout_bytes_fields()), 5) + repeat(shape_of::<u32>(), 7) + seq![shape_of::<i32>()]
        + repeat(shape_of::<u32>(), 3) + seq![shape_of::<i32>(), shape_of::<u32>(), shape_of::<i32>()]
        + repeat(shape_of::<u64>(), 4) + seq![shape_of::<u32>()]
}

/// `LiteParseProjectedWord`: `text` then four coordinates.
pub open spec fn word_fields() -> Seq<FieldShape> {
    seq![nested(layout_bytes_fields())] + repeat(shape_of::<u32>(), 4)
}

/// `LiteParseProjectedLine`, in declaration order.
pub open spec fn line_fields() -> Seq<FieldShape> {
    repeat(nested(layout_bytes_fields()), 2) + seq![nested(rect_fields())] + repeat(
        shape_of::<u32>(),
        3,
    ) + seq![shape_of::<i32>(), shape_of::<u32>(), shape_of::<u32>()] + repeat(shape_of::<u64>(), 4)
}

/// `LiteParseProjectedRegion`, in declaration order.
pub open spec fn region_fields() -> Seq<FieldShape> {
    seq![nested(rect_fields())] + repeat(shape_of::<u64>(), 5) + repeat(shape_of::<u32>(), 2)
}

/// `LiteParseProjectedLayoutPage`, in declaration order.
pub open spec fn page_fields() -> Seq<FieldShape> {
    repeat(shape_of::<u32>(), 5) + repeat(shape_of::<u64>(), 16)
}

/// Field indices the ABI description reports offsets of.
pub const SPAN_CHAR_CODE_OFFSET_FIELD: usize = 19;
pub const SPAN_WORD_OFFSET_FIELD: usize = 21;
pub const LINE_SPAN_OFFSET_FIELD: usize = 9;
pub const LINE_REGION_PATH_OFFSET_FIELD: usize = 11;
pub const PAGE_REGION_OFFSET_FIELD: usize = 15;
pub const REGION_CHILD_OFFSET_FIELD: usize = 2;
pub const LAYOUT_BYTES_LEN_FIELD: usize = 1;

pub const LITEPARSE_PROJECTED_LAYOUT_ABI_VERSION: u32 = 1;

/// Sizes, alignments and selected field offsets of the projected-layout
/// records, for foreign runtimes that describe them by hand.
#[derive(Clone, Copy, Debug, PartialEq, Eq, Structural)]
pub struct LiteParseProjectedLayoutAbi {
    pub version: u32,
    pub layout_bytes_size: u32,
    pub layout_bytes_align: u32,
    pub projected_page_size: u32,
    pub projected_page_align: u32,
    pub projected_line_size: u32,
    pub projected_line_align: u32,
    pub projected_span_size: u32,
    pub projected_span_align: u32,
    pub projected_word_size: u32,
    pub projected_word_align: u32,
    pub projected_region_size: u32,
    pub projected_region_align: u32,
    pub line_span_offset: u32,
    pub line_region_path_offset: u32,
    pub span_char_code_offset: u32,
    pub span_word_offset: u32,
    pub page_region_offset: u32,
    pub region_child_offset: u32,
    pub layout_bytes_len_offset: u32,
}

fn shape<T>() -> (s: FieldShape)
    requires
        size_of::<T>() <= usize::MAX,
        align_of::<T>() <= usize::MAX,
    ensures
        s == shape_of::<T>(),
{
    FieldShape { size: core::mem::size_of::<T>(), align: core::mem::align_of::<T>() }
}

fn push_repeat(v: &mut Vec<FieldShape>, s: FieldShape, n: usize)
    ensures
        final(v)@ == old(v)@ + repeat(s, n as nat),
{
    let ghost start = v@;
    let mut i: usize = 0;
    while i < n
        invariant
            0 <= i <= n,
            v@ == start + repeat(s, i as nat),
        decreases n - i,
    {
        v.push(s);
        i = i + 1;
        assert(v@ =~= start + repeat(s, i as nat));
    }
}

proof fn lemma_primitive_shape<T>()
    requires
        4 <= size_of::<T>() <= 8,
    ensures
        1 <= align_of::<T>() <= 8,
{
    broadcast use vstd::layout::align_nonzero;

    let s = size_of::<T>();
    let a = align_of::<T>();
    if a > s {
        vstd::arithmetic::div_mod::lemma_small_mod(s, a);
    }
}

proof fn lemma_primitive_shapes()
    ensures
        size_of::<u32>() == 4 && 1 <= align_of::<u32>() <= 8,
        size_of::<i32>() == 4 && 1 <= align_of::<i32>() <= 8,
        size_of::<u64>() == 8 && 1 <= align_of::<u64>() <= 8,
        4 <= size_of::<usize>() <= 8 && 1 <= align_of::<usize>() <= 8,
{
    lemma_primitive_shape::<u32>();
    lemma_primitive_shape::<i32>();
    lemma_primitive_shape::<u64>();
    assert(size_of::<usize>() * 8 == usize::BITS);
    lemma_primitive_shape::<usize>();
}

fn layout_of(fields: &Vec<FieldShape>) -> (l: StructLayout)
    requires
        bounded_fields(fields@, 80, 8),
        fields@.len() <= 64,
    ensures
        l.offsets@.len() == fields@.len(),
        forall|i: int| 0 <= i < fields@.len() ==> l.offsets@[i] == field_offset(fields@, i as nat),
        l.align == struct_align(fields@),
        l.size == struct_size(fields@),
        l.size <= 64 * 88 + 8,
        1 <= l.align <= 8,
        forall|i: int| 0 <= i < fields@.len() ==> l.offsets@[i] <= 64 * 88,
{
    proof {
        lemma_struct_bound(fields@, 80, 8);
        assert(fields@.len() * 88 <= 64 * 88) by (nonlinear_arith)
            requires
                fields@.len() <= 64,
        ;
        assert forall|i: int| 0 <= i < fields@.len() implies #[trigger] field_offset(
            fields@,
            i as nat,
        ) <= 64 * 88 by {
            lemma_end_bound(fields@, (i + 1) as nat, 80, 8);
            assert((i + 1) * 88 <= 64 * 88) by (nonlinear_arith)
                requires
                    i + 1 <= 64,
            ;
        }
    }
    repr_c_layout(fields.as_slice())
}

/// The ABI description of the projected-layout records.
pub fn projected_layout_abi() -> (r: LiteParseProjectedLayoutAbi)
    ensures
        r.version == LITEPARSE_PROJECTED_LAYOUT_ABI_VERSION,
        r.layout_bytes_size == struct_size(layout_bytes_fields()),
        r.layout_bytes_align == struct_align(layout_bytes_fields()),
        r.projected_page_size == struct_size(page_fields()),
        r.projected_page_align == struct_align(page_fields()),
        r.projected_line_size == struct_size(line_fields()),
        r.projected_line_align == struct_align(line_fields()),
        r.projected_span_size == struct_size(span_fields()),
        r.projected_span_align == struct_align(span_fields()),
        r.projected_word_size == struct_size(word_fields()),
        r.projected_word_align == struct_align(word_fields()),
        r.projected_region_size == struct_size(region_fields()),
        r.projected_region_align == struct_align(region_fields()),
        r.line_span_offset == field_offset(line_fields(), LINE_SPAN_OFFSET_FIELD as nat),
        r.line_region_path_offset == field_offset(
            line_fields(),
            LINE_REGION_PATH_OFFSET_FIELD as nat,
        ),
        r.span_char_code_offset == field_offset(span_fields(), SPAN_CHAR_CODE_OFFSET_FIELD as nat),
        r.span_word_offset == field_offset(span_fields(), SPAN_WORD_OFFSET_FIELD as nat),
        r.page_region_offset == field_offset(page_fields(), PAGE_REGION_OFFSET_FIELD as nat),
        r.region_child_offset == field_offset(region_fields(), REGION_CHILD_OFFSET_FIELD as nat),
        r.layout_bytes_len_offset == field_offset(
            layout_bytes_fields(),
            LAYOUT_BYTES_LEN_FIELD as nat,
        ),
{
    proof {
        lemma_primitive_shapes();
    }
    let w = shape::<u32>();
    let iw = shape::<i32>();
    let q = shape::<u64>();
    let p = shape::<usize>();

    let mut bytes_fields: Vec<FieldShape> = Vec::new();
    bytes_fields.push(p);
    bytes_fields.push(q);
    assert(bytes_fields@ =~= layout_bytes_fields());
    let bytes = layout_of(&bytes_fields);
    proof {
        lemma_struct_bound(bytes_fields@, 8, 8);
    }
    let lb = FieldShape { size: bytes.size, align: bytes.align };

    let mut rect_fields_v: Vec<FieldShape> = Vec::new();
    push_repeat(&mut rect_fields_v, w, 4);
    assert(rect_fields_v@ =~= rect_fields());
    let rect = layout_of(&rect_fields_v);
    proof {
        lemma_struct_bound(rect_fields_v@, 8, 8);
    }
    let rs = FieldShape { size: rect.size, align: rect.align };

    let mut span: Vec<FieldShape> = Vec::new();
    push_repeat(&mut span, lb, 5);
    push_repeat(&mut span, w, 7);
    span.push(iw);
    push_repeat(&mut span, w, 3);
    span.push(iw);
    span.push(w);
    span.push(iw);
    push_repeat(&mut span, q, 4);
    span.push(w);
    assert(span@ =~= span_fields());
    let span_l = layout_of(&span);

    let mut word: Vec<FieldShape> = Vec::new();
    word.push(lb);
    push_repeat(&mut word, w, 4);
    assert(word@ =~= word_fields());
    let word_l = layout_of(&word);

    let mut line: Vec<FieldShape> = Vec::new();
    push_repeat(&mut line, lb, 2);
    line.push(rs);
    push_repeat(&mut line, w, 3);
    line.push(iw);
    line.push(w);
    line.push(w);
    push_repeat(&mut line, q, 4);
    assert(line@ =~= line_fields());
    let line_l = layout_of(&line);

    let mut region: Vec<FieldShape> = Vec::new();
    region.push(rs);
    push_repeat(&mut region, q, 5);
    push_repeat(&mut region, w, 2);
    assert(region@ =~= region_fields());
    let region_l = layout_of(&region);

    let mut page: Vec<FieldShape> = Vec::new();
    push_repeat(&mut page, w, 5);
    push_repeat(&mut page, q, 16);
    assert(page@ =~= page_fields());
    let page_l = layout_of(&page);

    LiteParseProjectedLayoutAbi {
        version: LITEPARSE_PROJECTED_LAYOUT_ABI_VERSION,
        layout_bytes_size: bytes.size as u32,
        layout_bytes_align: bytes.align as u32,
        projected_page_size: page_l.size as u32,
        projected_page_align: page_l.align as u32,
        projected_line_size: line_l.size as u32,
        projected_line_align: line_l.align as u32,
        projected_span_size: span_l.size as u32,
        projected_span_align: span_l.align as u32,
        projected_word_size: word_l.size as u32,
        projected_word_align: word_l.align as u32,
        projected_region_size: region_l.size as u32,
        projected_region_align: region_l.align as u32,
        line_span_offset: line_l.offsets[LINE_SPAN_OFFSET_FIELD] as u32,
        line_region_path_offset: line_l.offsets[LINE_REGION_PATH_OFFSET_FIELD] as u32,
        span_char_code_offset: span_l.offsets[SPAN_CHAR_CODE_OFFSET_FIELD] as u32,
        span_word_offset: span_l.offsets[SPAN_WORD_OFFSET_FIELD] as u32,
        page_region_offset: page_l.offsets[PAGE_REGION_OFFSET_FIELD] as u32,
        region_child_offset: region_l.offsets[REGION_CHILD_OFFSET_FIELD] as u32,
        layout_bytes_len_offset: bytes.offsets[LAYOUT_BYTES_LEN_FIELD] as u32,
    }
}

} // verus!

verus! {

/// Every field of `fields` has a power-of-two alignment.
pub open spec fn pow2_aligned(fields: Seq<FieldShape>) -> bool {
    forall|i: int| 0 <= i < fields.len() ==> is_pow2((#[trigger] fields[i]).align as int)
}

proof fn lemma_max_align_pow2(fields: Seq<FieldShape>, n: nat)
    requires
        pow2_aligned(fields),
        n <= fields.len(),
    ensures
        is_pow2(max_align(fields, n) as int),
    decreases n,
{
    if n == 0 {
        reveal(is_pow2);
    } else {
        lemma_max_align_pow2(fields, (n - 1) as nat);
        assert(is_pow2(fields[n - 1].align as int));
    }
}

proof fn lemma_field_inside(fields: Seq<FieldShape>, i: nat)
    requires
        small_fields(fields),
        i < fields.len(),
    ensures
        field_offset(fields, i) + fields[i as int].size <= struct_size(fields),
    decreases fields.len() - i,
{
    lemma_repr_c_well_formed(fields);
    if i + 1 < fields.len() {
        lemma_field_inside(fields, i + 1);
        assert(field_offset(fields, i) + fields[i as int].size <= field_offset(fields, i + 1));
    }
}

/// What the ABI description needs of a record laid out from `fields`: its
/// alignment is a power of two that divides its size, and field `i` is a
/// 64-bit field that starts on the alignment of `u64` and ends inside the
/// record.
pub open spec fn reports_u64_field(fields: Seq<FieldShape>, i: nat) -> bool {
    &&& is_pow2(struct_align(fields) as int)
    &&& struct_size(fields) % struct_align(fields) == 0
    &&& i < fields.len()
    &&& fields[i as int] == shape_of::<u64>()
    &&& field_offset(fields, i) % align_of::<u64>() == 0
    &&& field_offset(fields, i) + 8 <= struct_size(fields)
}

proof fn lemma_reports(fields: Seq<FieldShape>, i: nat)
    requires
        small_fields(fields),
        pow2_aligned(fields),
        i < fields.len(),
        fields[i as int] == shape_of::<u64>(),
        size_of::<u64>() == 8,
        1 <= align_of::<u64>() <= 8,
    ensures
        reports_u64_field(fields, i),
{
    lemma_repr_c_well_formed(fields);
    lemma_max_align_pow2(fields, fields.len());
    lemma_field_inside(fields, i);
}

proof fn lemma_shape_pow2<T>()
    requires
        align_of::<T>() <= 8,
    ensures
        is_pow2(shape_of::<T>().align as int),
{
    broadcast use vstd::layout::align_properties;

    assert(align_of::<T>() as usize as nat == align_of::<T>());
}

proof fn lemma_nested_shape(fields: Seq<FieldShape>)
    requires
        bounded_fields(fields, 8, 8),
        pow2_aligned(fields),
        fields.len() <= 4,
    ensures
        nested(fields).size <= 72,
        1 <= nested(fields).align <= 8,
        is_pow2(nested(fields).align as int),
{
    lemma_struct_bound(fields, 8, 8);
    assert(fields.len() * 16 <= 64) by (nonlinear_arith)
        requires
            fields.len() <= 4,
    ;
    lemma_max_align_pow2(fields, fields.len());
}

/// The ABI description is consistent: the byte-view, page, line, span,
/// word and region records each have a power-of-two alignment that divides
/// their size, and each reported offset names a 64-bit field that starts
/// on the alignment of `u64` and ends inside its record.
pub proof fn lemma_projected_abi_consistent()
    ensures
        reports_u64_field(layout_bytes_fields(), LAYOUT_BYTES_LEN_FIELD as nat),
        reports_u64_field(line_fields(), LINE_SPAN_OFFSET_FIELD as nat),
        reports_u64_field(line_fields(), LINE_REGION_PATH_OFFSET_FIELD as nat),
        reports_u64_field(span_fields(), SPAN_CHAR_CODE_OFFSET_FIELD as nat),
        reports_u64_field(span_fields(), SPAN_WORD_OFFSET_FIELD as nat),
        reports_u64_field(page_fields(), PAGE_REGION_OFFSET_FIELD as nat),
        reports_u64_field(region_fields(), REGION_CHILD_OFFSET_FIELD as nat),
        is_pow2(struct_align(word_fields()) as int),
        struct_size(word_fields()) % struct_align(word_fields()) == 0,
{
    lemma_primitive_shapes();
    lemma_shape_pow2::<u32>();
    lemma_shape_pow2::<i32>();
    lemma_shape_pow2::<u64>();
    lemma_shape_pow2::<usize>();
    let w = shape_of::<u32>();
    let iw = shape_of::<i32>();
    let q = shape_of::<u64>();
    let lbf = layout_bytes_fields();
    let rf = rect_fields();
    lemma_nested_shape(lbf);
    lemma_nested_shape(rf);
    let lb = nested(lbf);
    let rs = nested(rf);
    lemma_reports(lbf, 1);

    let line = line_fields();
    assert(line.len() == 13);
    assert forall|i: int| 0 <= i < 13 implies #[trigger] line[i] == (if i < 2 {
        lb
    } else if i == 2 {
        rs
    } else if i == 6 {
        iw
    } else if i < 9 {
        w
    } else {
        q
    }) by {}
    lemma_reports(line, 9);
    lemma_reports(line, 11);

    let span = span_fields();
    assert(span.len() == 24);
    assert forall|i: int| 0 <= i < 24 implies #[trigger] span[i] == (if i < 5 {
        lb
    } else if i == 12 || i == 16 || i == 18 {
        iw
    } else if 19 <= i < 23 {
        q
    } else {
        w
    }) by {}
    lemma_reports(span, 19);
    lemma_reports(span, 21);

    let page = page_fields();
    assert(page.len() == 21);
    assert forall|i: int| 0 <= i < 21 implies #[trigger] page[i] == (if i < 5 {
        w
    } else {
        q
    }) by {}
    lemma_reports(page, 15);

    let region = region_fields();
    assert(region.len() == 8);
    assert forall|i: int| 0 <= i < 8 implies #[trigger] region[i] == (if i == 0 {
        rs
    } else if i < 6 {
        q
    } else {
        w
    }) by {}
    lemma_reports(region, 2);

    let word = word_fields();
    assert(word.len() == 5);
    assert forall|i: int| 0 <= i < 5 implies #[trigger] word[i] == (if i == 0 {
        lb
    } else {
        w
    }) by {}
    lemma_repr_c_well_formed(word);
    lemma_max_align_pow2(word, 5);
}

} // verus!
