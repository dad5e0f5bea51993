//! Flag words: the bits that stand for booleans and optionals in every
//! record, and the reason masks of the complexity record.

use vstd::prelude::*;

verus! {

/// `LiteParsePageComplexity.reasons` bits.
pub const LITEPARSE_REASON_SCANNED: u32 = 1;
pub const LITEPARSE_REASON_NO_TEXT: u32 = 2;
pub const LITEPARSE_REASON_SPARSE_TEXT: u32 = 4;
pub const LITEPARSE_REASON_EMBEDDED_IMAGES: u32 = 8;
pub const LITEPARSE_REASON_GARBLED: u32 = 16;
pub const LITEPARSE_REASON_VECTOR_TEXT: u32 = 32;
pub const LITEPARSE_REASON_ANNOTATION_TEXT: u32 = 64;
/// Every defined reason bit.
pub const REASON_MASK: u32 = 127;

/// `LiteParsePageComplexity.layout_reasons` bits.
pub const LITEPARSE_LAYOUT_REASON_MULTI_COLUMN: u32 = 1;
pub const LITEPARSE_LAYOUT_REASON_TABLE_LIKELY: u32 = 2;
pub const LITEPARSE_LAYOUT_REASON_DENSE_GRAPHICS: u32 = 4;
/// Every defined layout reason bit.
pub const LAYOUT_REASON_MASK: u32 = 7;

/// The fold of `flag_bits`: the OR of the bits whose condition holds.
pub open spec fn flags_of(bits: Seq<(bool, u32)>) -> u32
    decreases bits.len(),
{
    if bits.len() == 0 {
        0
    } else {
        let last = bits.last();
        flags_of(bits.drop_last()) | (if last.0 {
            last.1
        } else {
            0u32
        })
    }
}

/// OR together the bits whose condition is set.
pub fn flag_bits(bits: &[(bool, u32)]) -> (r: u32)
    ensures
        r == flags_of(bits@),
{
    let mut flags: u32 = 0;
    let mut i: usize = 0;
    while i < bits.len()
        invariant
            0 <= i <= bits@.len(),
            flags == flags_of(bits@.take(i as int)),
        decreases bits@.len() - i,
    {
        let (set, bit) = bits[i];
        proof {
            assert(bits@.take(i as int + 1).drop_last() =~= bits@.take(i as int));
        }
        if set {
            flags = flags | bit;
        } else {
            proof {
                assert(flags | 0u32 == flags) by (bit_vector);
            }
        }
        i = i + 1;
    }
    proof {
        assert(bits@.take(bits@.len() as int) =~= bits@);
    }
    flags
}

/// Whether `bit` is set in `flags`.
pub fn has(flags: u32, bit: u32) -> (r: bool)
    ensures
        r == (flags & bit != 0),
{
    flags & bit != 0
}

/// Whether every bit of `flags` is a known one.
pub open spec fn only_known(flags: u32, known: u32) -> bool {
    flags & !known == 0
}

/// An optional scalar as `(value or default, present)`.
pub fn optional<T: Default + Copy>(value: Option<T>) -> (r: (T, bool))
    ensures
        r.1 == value is Some,
        value matches Some(v) ==> r.0 == v,
        value is None ==> call_ensures(T::default, (), r.0),
{
    let present = value.is_some();
    (value.unwrap_or_default(), present)
}

/// A count as `u32`, saturating at `u32::MAX`.
pub fn clamp_u32(value: usize) -> (r: u32)
    ensures
        r == (if value <= u32::MAX {
            value as u32
        } else {
            u32::MAX
        }),
{
    if value <= u32::MAX as usize {
        value as u32
    } else {
        u32::MAX
    }
}

/// A record offset or count. Packed arrays never exceed `u32::MAX` entries,
/// which the caller must know.
pub fn packed_len(value: usize) -> (r: u32)
    requires
        value <= u32::MAX,
    ensures
        r == value,
{
    value as u32
}

/// Why a page needs OCR.
#[derive(Clone, Copy, Debug, PartialEq, Eq, Structural)]
pub enum ComplexityReason {
    Scanned,
    NoText,
    SparseText,
    EmbeddedImages,
    Garbled,
    VectorText,
    AnnotationText,
}

/// Why a page's layout counts as complex.
#[derive(Clone, Copy, Debug, PartialEq, Eq, Structural)]
pub enum LayoutComplexityReason {
    MultiColumn,
    TableLikely,
    DenseGraphics,
}

/// Position of a reason in its bit table.
pub open spec fn reason_index(r: ComplexityReason) -> nat {
    match r {
        ComplexityReason::Scanned => 0,
        ComplexityReason::NoText => 1,
        ComplexityReason::SparseText => 2,
        ComplexityReason::EmbeddedImages => 3,
        ComplexityReason::Garbled => 4,
        ComplexityReason::VectorText => 5,
        ComplexityReason::AnnotationText => 6,
    }
}

pub open spec fn reason_at(i: nat) -> ComplexityReason {
    if i == 0 {
        ComplexityReason::Scanned
    } else if i == 1 {
        ComplexityReason::NoText
    } else if i == 2 {
        ComplexityReason::SparseText
    } else if i == 3 {
        ComplexityReason::EmbeddedImages
    } else if i == 4 {
        ComplexityReason::Garbled
    } else if i == 5 {
        ComplexityReason::VectorText
    } else {
        ComplexityReason::AnnotationText
    }
}

pub open spec fn layout_reason_index(r: LayoutComplexityReason) -> nat {
    match r {
        LayoutComplexityReason::MultiColumn => 0,
        LayoutComplexityReason::TableLikely => 1,
        LayoutComplexityReason::DenseGraphics => 2,
    }
}

pub open spec fn layout_reason_at(i: nat) -> LayoutComplexityReason {
    if i == 0 {
        LayoutComplexityReason::MultiColumn
    } else if i == 1 {
        LayoutComplexityReason::TableLikely
    } else {
        LayoutComplexityReason::DenseGraphics
    }
}

/// The single bit at position `i`.
pub open spec fn bit(i: nat) -> u32 {
    (1u32 << (i as u32)) as u32
}

/// OR of the bits at the given positions.
pub open spec fn mask_of_indices(s: Seq<nat>) -> u32
    decreases s.len(),
{
    if s.len() == 0 {
        0
    } else {
        mask_of_indices(s.drop_last()) | bit(s.last())
    }
}

/// The positions below `k` whose bit is set in `mask`, ascending.
pub open spec fn indices_in(mask: u32, k: nat) -> Seq<nat>
    decreases k,
{
    if k == 0 {
        Seq::empty()
    } else {
        let rest = indices_in(mask, (k - 1) as nat);
        if mask & bit((k - 1) as nat) != 0 {
            rest.push((k - 1) as nat)
        } else {
            rest
        }
    }
}

pub open spec fn reason_indices(s: Seq<ComplexityReason>) -> Seq<nat> {
    s.map_values(|r: ComplexityReason| reason_index(r))
}

pub open spec fn layout_reason_indices(s: Seq<LayoutComplexityReason>) -> Seq<nat> {
    s.map_values(|r: LayoutComplexityReason| layout_reason_index(r))
}

fn reason_bit(r: ComplexityReason) -> (b: u32)
    ensures
        b == bit(reason_index(r)),
{
    let b: u32 = match r {
        ComplexityReason::Scanned => LITEPARSE_REASON_SCANNED,
        ComplexityReason::NoText => LITEPARSE_REASON_NO_TEXT,
        ComplexityReason::SparseText => LITEPARSE_REASON_SPARSE_TEXT,
        ComplexityReason::EmbeddedImages => LITEPARSE_REASON_EMBEDDED_IMAGES,
        ComplexityReason::Garbled => LITEPARSE_REASON_GARBLED,
        ComplexityReason::VectorText => LITEPARSE_REASON_VECTOR_TEXT,
        ComplexityReason::AnnotationText => LITEPARSE_REASON_ANNOTATION_TEXT,
    };
    proof {
        assert(1u32 << 0u32 == 1u32) by (bit_vector);
        assert(1u32 << 1u32 == 2u32) by (bit_vector);
        assert(1u32 << 2u32 == 4u32) by (bit_vector);
        assert(1u32 << 3u32 == 8u32) by (bit_vector);
        assert(1u32 << 4u32 == 16u32) by (bit_vector);
        assert(1u32 << 5u32 == 32u32) by (bit_vector);
        assert(1u32 << 6u32 == 64u32) by (bit_vector);
    }
    b
}

fn layout_reason_bit(r: LayoutComplexityReason) -> (b: u32)
    ensures
        b == bit(layout_reason_index(r)),
{
    let b: u32 = match r {
        LayoutComplexityReason::MultiColumn => LITEPARSE_LAYOUT_REASON_MULTI_COLUMN,
        LayoutComplexityReason::TableLikely => LITEPARSE_LAYOUT_REASON_TABLE_LIKELY,
        LayoutComplexityReason::DenseGraphics => LITEPARSE_LAYOUT_REASON_DENSE_GRAPHICS,
    };
    proof {
        assert(1u32 << 0u32 == 1u32) by (bit_vector);
        assert(1u32 << 1u32 == 2u32) by (bit_vector);
        assert(1u32 << 2u32 == 4u32) by (bit_vector);
    }
    b
}

/// The `reasons` word of a page: the OR of the bits of the listed reasons.
pub fn reason_mask(reasons: &[ComplexityReason]) -> (m: u32)
    ensures
        m == mask_of_indices(reason_indices(reasons@)),
{
    let mut m: u32 = 0;
    let mut i: usize = 0;
    while i < reasons.len()
        invariant
            0 <= i <= reasons@.len(),
            m == mask_of_indices(reason_indices(reasons@.take(i as int))),
        decreases reasons@.len() - i,
    {
        let b = reason_bit(reasons[i]);
        proof {
            let t = reasons@.take(i as int + 1);
            assert(reason_indices(t).drop_last() =~= reason_indices(reasons@.take(i as int)));
        }
        m = m | b;
        i = i + 1;
    }
    proof {
        assert(reasons@.take(reasons@.len() as int) =~= reasons@);
    }
    m
}

/// The `layout_reasons` word of a page.
pub fn layout_reason_mask(reasons: &[LayoutComplexityReason]) -> (m: u32)
    ensures
        m == mask_of_indices(layout_reason_indices(reasons@)),
{
    let mut m: u32 = 0;
    let mut i: usize = 0;
    while i < reasons.len()
        invariant
            0 <= i <= reasons@.len(),
            m == mask_of_indices(layout_reason_indices(reasons@.take(i as int))),
        decreases reasons@.len() - i,
    {
        let b = layout_reason_bit(reasons[i]);
        proof {
            let t = reasons@.take(i as int + 1);
            assert(layout_reason_indices(t).drop_last() =~= layout_reason_indices(
                reasons@.take(i as int),
            ));
        }
        m = m | b;
        i = i + 1;
    }
    proof {
        assert(reasons@.take(reasons@.len() as int) =~= reasons@);
    }
    m
}

fn reason_of_index(i: u32) -> (r: ComplexityReason)
    requires
        i < 7,
    ensures
        r == reason_at(i as nat),
        reason_index(r) == i,
{
    match i {
        0 => ComplexityReason::Scanned,
        1 => ComplexityReason::NoText,
        2 => ComplexityReason::SparseText,
        3 => ComplexityReason::EmbeddedImages,
        4 => ComplexityReason::Garbled,
        5 => ComplexityReason::VectorText,
        _ => ComplexityReason::AnnotationText,
    }
}

fn layout_reason_of_index(i: u32) -> (r: LayoutComplexityReason)
    requires
        i < 3,
    ensures
        r == layout_reason_at(i as nat),
        layout_reason_index(r) == i,
{
    match i {
        0 => LayoutComplexityReason::MultiColumn,
        1 => LayoutComplexityReason::TableLikely,
        _ => LayoutComplexityReason::DenseGraphics,
    }
}

/// The reasons whose bit is set in `mask`, in table order; unknown bits
/// are ignored.
pub fn reasons_from_mask(mask: u32) -> (r: Vec<ComplexityReason>)
    ensures
        reason_indices(r@) == indices_in(mask, 7),
        forall|i: int| 0 <= i < r@.len() ==> r@[i] == reason_at(#[trigger] indices_in(mask, 7)[i]),
{
    let mut out: Vec<ComplexityReason> = Vec::new();
    let mut k: u32 = 0;
    while k < 7
        invariant
            0 <= k <= 7,
            reason_indices(out@) == indices_in(mask, k as nat),
            forall|i: int|
                0 <= i < out@.len() ==> out@[i] == reason_at(#[trigger] indices_in(mask, k as nat)[i]),
        decreases 7 - k,
    {
        let b: u32 = 1u32 << k;
        let ghost before = out@;
        if mask & b != 0 {
            let r = reason_of_index(k);
            out.push(r);
            proof {
                assert(reason_indices(out@) =~= reason_indices(before).push(k as nat));
            }
        }
        proof {
            assert(b == bit(k as nat));
            assert(indices_in(mask, (k + 1) as nat) == (if mask & bit(k as nat) != 0 {
                indices_in(mask, k as nat).push(k as nat)
            } else {
                indices_in(mask, k as nat)
            }));
        }
        k = k + 1;
    }
    out
}

/// The layout reasons whose bit is set in `mask`, in table order.
pub fn layout_reasons_from_mask(mask: u32) -> (r: Vec<LayoutComplexityReason>)
    ensures
        layout_reason_indices(r@) == indices_in(mask, 3),
        forall|i: int|
            0 <= i < r@.len() ==> r@[i] == layout_reason_at(#[trigger] indices_in(mask, 3)[i]),
{
    let mut out: Vec<LayoutComplexityReason> = Vec::new();
    let mut k: u32 = 0;
    while k < 3
        invariant
            0 <= k <= 3,
            layout_reason_indices(out@) == indices_in(mask, k as nat),
            forall|i: int|
                0 <= i < out@.len() ==> out@[i] == layout_reason_at(
                    #[trigger] indices_in(mask, k as nat)[i],
                ),
        decreases 3 - k,
    {
        let b: u32 = 1u32 << k;
        let ghost before = out@;
        if mask & b != 0 {
            let r = layout_reason_of_index(k);
            out.push(r);
            proof {
                assert(layout_reason_indices(out@) =~= layout_reason_indices(before).push(k as nat));
            }
        }
        proof {
            assert(b == bit(k as nat));
            assert(indices_in(mask, (k + 1) as nat) == (if mask & bit(k as nat) != 0 {
                indices_in(mask, k as nat).push(k as nat)
            } else {
                indices_in(mask, k as nat)
            }));
        }
        k = k + 1;
    }
    out
}


proof fn lemma_low_bits_step(m: u32, k: u32)
    requires
        k < 32,
    ensures
        m & bit(k as nat) != 0 ==> (m & (((1u32 << k) - 1) as u32)) | bit(k as nat) == m & ((((1u64 << ((k + 1) as u64)) - 1) as u64) as u32),
        m & bit(k as nat) == 0 ==> m & (((1u32 << k) - 1) as u32) == m & ((((1u64 << ((k + 1) as u64)) - 1) as u64) as u32),
{
    assert(m & ((1u32 << k) as u32) != 0 ==> (m & (((1u32 << k) - 1) as u32)) | ((1u32 << k) as u32) == m & ((((1u64 << ((k + 1) as u64)) - 1) as u64) as u32)) by (bit_vector)
        requires
            k < 32,
    ;
    assert(m & ((1u32 << k) as u32) == 0 ==> m & (((1u32 << k) - 1) as u32) == m & ((((1u64 << ((k + 1) as u64)) - 1) as u64) as u32)) by (bit_vector)
        requires
            k < 32,
    ;
}

proof fn lemma_mask_of_indices_in(m: u32, k: u32)
    requires
        k < 32,
    ensures
        mask_of_indices(indices_in(m, k as nat)) == m & (((1u32 << k) - 1) as u32),
    decreases k,
{
    if k == 0 {
        assert(m & (((1u32 << 0u32) - 1) as u32) == 0) by (bit_vector);
    } else {
        let j = (k - 1) as u32;
        lemma_mask_of_indices_in(m, j);
        lemma_low_bits_step(m, j);
        assert((((1u64 << ((j + 1) as u64)) - 1) as u64) as u32 == ((1u32 << k) - 1) as u32) by (bit_vector)
            requires
                j < 31,
                k == j + 1,
        ;
        let rest = indices_in(m, j as nat);
        if m & bit(j as nat) != 0 {
            assert(indices_in(m, k as nat) == rest.push(j as nat));
            assert(rest.push(j as nat).drop_last() =~= rest);
        }
    }
}

/// Reading reasons back from a `reasons` word and packing them again gives
/// the word without its unknown bits.
pub proof fn lemma_reason_mask_round_trip(mask: u32)
    ensures
        mask_of_indices(indices_in(mask, 7)) == mask & REASON_MASK,
{
    lemma_mask_of_indices_in(mask, 7);
    assert(((1u32 << 7u32) - 1) as u32 == 127u32) by (bit_vector);
}

/// The same for the `layout_reasons` word.
pub proof fn lemma_layout_reason_mask_round_trip(mask: u32)
    ensures
        mask_of_indices(indices_in(mask, 3)) == mask & LAYOUT_REASON_MASK,
{
    lemma_mask_of_indices_in(mask, 3);
    assert(((1u32 << 3u32) - 1) as u32 == 7u32) by (bit_vector);
}

proof fn lemma_bit_and(i: nat, j: nat)
    requires
        i < 32,
        j < 32,
    ensures
        (bit(i) & bit(j) != 0) == (i == j),
{
    let a = i as u32;
    let b = j as u32;
    assert(((1u32 << a) & (1u32 << b) != 0) == (a == b)) by (bit_vector)
        requires
            a < 32,
            b < 32,
    ;
}

proof fn lemma_mask_membership(s: Seq<nat>, j: nat)
    requires
        j < 32,
        forall|i: int| 0 <= i < s.len() ==> #[trigger] s[i] < 32,
    ensures
        (mask_of_indices(s) & bit(j) != 0) == s.contains(j),
    decreases s.len(),
{
    if s.len() == 0 {
        assert(0u32 & bit(j) == 0) by (bit_vector);
    } else {
        let p = s.drop_last();
        assert forall|i: int| 0 <= i < p.len() implies #[trigger] p[i] < 32 by {
            assert(p[i] == s[i]);
        }
        lemma_mask_membership(p, j);
        assert(s[s.len() - 1] < 32);
        lemma_bit_and(s.last(), j);
        let a = mask_of_indices(p);
        let b = bit(s.last());
        let c = bit(j);
        assert(((a | b) & c != 0) == (a & c != 0 || b & c != 0)) by (bit_vector);
        if s.contains(j) {
            let w = choose|w: int| 0 <= w < s.len() && s[w] == j;
            if w < s.len() - 1 {
                assert(p[w] == j);
            }
        }
        if p.contains(j) {
            let w = choose|w: int| 0 <= w < p.len() && p[w] == j;
            assert(s[w] == j);
        }
    }
}

proof fn lemma_indices_in_membership(m: u32, k: nat, j: nat)
    ensures
        indices_in(m, k).contains(j) == (j < k && m & bit(j) != 0),
    decreases k,
{
    if k > 0 {
        lemma_indices_in_membership(m, (k - 1) as nat, j);
        let rest = indices_in(m, (k - 1) as nat);
        if m & bit((k - 1) as nat) != 0 {
            let full = rest.push((k - 1) as nat);
            assert(full[full.len() - 1] == (k - 1) as nat);
            if rest.contains(j) {
                let w = choose|w: int| 0 <= w < rest.len() && rest[w] == j;
                assert(full[w] == j);
            }
            if full.contains(j) && j != (k - 1) as nat {
                let w = choose|w: int| 0 <= w < full.len() && full[w] == j;
                assert(rest[w] == j);
            }
        }
    }
}

/// Packing a list of reasons and reading it back keeps exactly the reasons
/// that were listed.
pub proof fn lemma_reasons_survive_packing(reasons: Seq<ComplexityReason>, r: ComplexityReason)
    ensures
        indices_in(mask_of_indices(reason_indices(reasons)), 7).contains(reason_index(r))
            == reasons.contains(r),
{
    let s = reason_indices(reasons);
    assert forall|i: int| 0 <= i < s.len() implies #[trigger] s[i] < 32 by {}
    lemma_mask_membership(s, reason_index(r));
    lemma_indices_in_membership(mask_of_indices(s), 7, reason_index(r));
    if reasons.contains(r) {
        let w = choose|w: int| 0 <= w < reasons.len() && reasons[w] == r;
        assert(s[w] == reason_index(r));
    }
    if s.contains(reason_index(r)) {
        let w = choose|w: int| 0 <= w < s.len() && s[w] == reason_index(r);
        assert(reason_index(reasons[w]) == reason_index(r));
        assert(reasons[w] == r);
    }
}

/// The same for layout reasons.
pub proof fn lemma_layout_reasons_survive_packing(
    reasons: Seq<LayoutComplexityReason>,
    r: LayoutComplexityReason,
)
    ensures
        indices_in(mask_of_indices(layout_reason_indices(reasons)), 3).contains(
            layout_reason_index(r),
        ) == reasons.contains(r),
{
    let s = layout_reason_indices(reasons);
    assert forall|i: int| 0 <= i < s.len() implies #[trigger] s[i] < 32 by {}
    lemma_mask_membership(s, layout_reason_index(r));
    lemma_indices_in_membership(mask_of_indices(s), 3, layout_reason_index(r));
    if reasons.contains(r) {
        let w = choose|w: int| 0 <= w < reasons.len() && reasons[w] == r;
        assert(s[w] == layout_reason_index(r));
    }
    if s.contains(layout_reason_index(r)) {
        let w = choose|w: int| 0 <= w < s.len() && s[w] == layout_reason_index(r);
        assert(layout_reason_index(reasons[w]) == layout_reason_index(r));
        assert(reasons[w] == r);
    }
}

/// A reason is listed exactly when its index is.
pub proof fn lemma_reason_indices_contains(reasons: Seq<ComplexityReason>, r: ComplexityReason)
    ensures
        reason_indices(reasons).contains(reason_index(r)) == reasons.contains(r),
{
    let s = reason_indices(reasons);
    if reasons.contains(r) {
        let w = choose|w: int| 0 <= w < reasons.len() && reasons[w] == r;
        assert(s[w] == reason_index(r));
    }
    if s.contains(reason_index(r)) {
        let w = choose|w: int| 0 <= w < s.len() && s[w] == reason_index(r);
        assert(reason_index(reasons[w]) == reason_index(r));
        assert(reasons[w] == r);
    }
}

/// The same for layout reasons.
pub proof fn lemma_layout_reason_indices_contains(
    reasons: Seq<LayoutComplexityReason>,
    r: LayoutComplexityReason,
)
    ensures
        layout_reason_indices(reasons).contains(layout_reason_index(r)) == reasons.contains(r),
{
    let s = layout_reason_indices(reasons);
    if reasons.contains(r) {
        let w = choose|w: int| 0 <= w < reasons.len() && reasons[w] == r;
        assert(s[w] == layout_reason_index(r));
    }
    if s.contains(layout_reason_index(r)) {
        let w = choose|w: int| 0 <= w < s.len() && s[w] == layout_reason_index(r);
        assert(layout_reason_index(reasons[w]) == layout_reason_index(r));
        assert(reasons[w] == r);
    }
}

/// The bits at positions below `n` set no bit outside the low `n`.
proof fn lemma_mask_below(s: Seq<nat>, n: u32, m: u32)
    requires
        n < 32,
        m == ((1u32 << n) - 1) as u32,
        forall|i: int| 0 <= i < s.len() ==> #[trigger] s[i] < n,
    ensures
        mask_of_indices(s) & !m == 0,
    decreases s.len(),
{
    if s.len() > 0 {
        let p = s.drop_last();
        assert forall|i: int| 0 <= i < p.len() implies #[trigger] p[i] < n by {
            assert(p[i] == s[i]);
        }
        lemma_mask_below(p, n, m);
        let a = mask_of_indices(p);
        let j = s.last() as u32;
        assert(s[s.len() - 1] < n);
        assert(bit(s.last()) == (1u32 << j) as u32);
        assert((a | (1u32 << j)) & !m == 0) by (bit_vector)
            requires
                a & !m == 0,
                j < n,
                n < 32,
                m == ((1u32 << n) - 1) as u32,
        ;
    } else {
        assert(0u32 & !m == 0) by (bit_vector);
    }
}

/// Packed reasons set only known reason bits.
pub proof fn lemma_reasons_known(s: Seq<ComplexityReason>)
    ensures
        only_known(mask_of_indices(reason_indices(s)), REASON_MASK),
{
    assert(((1u32 << 7u32) - 1) as u32 == 127u32) by (bit_vector);
    lemma_mask_below(reason_indices(s), 7, REASON_MASK);
}

/// Packed layout reasons set only known layout reason bits.
pub proof fn lemma_layout_reasons_known(s: Seq<LayoutComplexityReason>)
    ensures
        only_known(mask_of_indices(layout_reason_indices(s)), LAYOUT_REASON_MASK),
{
    assert(((1u32 << 3u32) - 1) as u32 == 7u32) by (bit_vector);
    lemma_mask_below(layout_reason_indices(s), 3, LAYOUT_REASON_MASK);
}

} // verus!

verus! {

proof fn lemma_indices_in_ascending(mask: u32, k: nat)
    ensures
        forall|i: int| 0 <= i < indices_in(mask, k).len() ==> #[trigger] indices_in(mask, k)[i] < k,
        forall|i: int, j: int|
            0 <= i < j < indices_in(mask, k).len() ==> #[trigger] indices_in(mask, k)[i]
                < #[trigger] indices_in(mask, k)[j],
    decreases k,
{
    if k > 0 {
        let km = (k - 1) as nat;
        lemma_indices_in_ascending(mask, km);
        let rest = indices_in(mask, km);
        let s = indices_in(mask, k);
        assert forall|i: int| 0 <= i < s.len() implies #[trigger] s[i] < k && (i < rest.len()
            ==> s[i] == rest[i]) && (i >= rest.len() ==> s[i] == km) by {
            if i < rest.len() {
                assert(rest[i] < km);
            }
        }
        assert forall|i: int, j: int| 0 <= i < j < s.len() implies #[trigger] s[i] < #[trigger] s[j] by {
            assert(s[i] < k && s[j] < k);
            if j < rest.len() {
                assert(rest[i] < rest[j]);
            } else {
                assert(rest[i] < km);
            }
        }
    }
}

/// Reasons read back from a `reasons` word come in table order, each at
/// most once.
pub proof fn lemma_reasons_in_table_order(mask: u32, r: Seq<ComplexityReason>)
    requires
        reason_indices(r) == indices_in(mask, 7),
    ensures
        forall|i: int, j: int|
            0 <= i < j < r.len() ==> reason_index(#[trigger] r[i]) < reason_index(#[trigger] r[j]),
{
    lemma_indices_in_ascending(mask, 7);
    assert forall|i: int, j: int| 0 <= i < j < r.len() implies reason_index(#[trigger] r[i])
        < reason_index(#[trigger] r[j]) by {
        assert(reason_indices(r)[i] == reason_index(r[i]));
        assert(reason_indices(r)[j] == reason_index(r[j]));
    }
}

/// The same for the `layout_reasons` word.
pub proof fn lemma_layout_reasons_in_table_order(mask: u32, r: Seq<LayoutComplexityReason>)
    requires
        layout_reason_indices(r) == indices_in(mask, 3),
    ensures
        forall|i: int, j: int|
            0 <= i < j < r.len() ==> layout_reason_index(#[trigger] r[i]) < layout_reason_index(
                #[trigger] r[j],
            ),
{
    lemma_indices_in_ascending(mask, 3);
    assert forall|i: int, j: int| 0 <= i < j < r.len() implies layout_reason_index(
        #[trigger] r[i],
    ) < layout_reason_index(#[trigger] r[j]) by {
        assert(layout_reason_indices(r)[i] == layout_reason_index(r[i]));
        assert(layout_reason_indices(r)[j] == layout_reason_index(r[j]));
    }
}


/// Each reason sits at its own place in the bit table: scanned 0, no text
/// 1, sparse text 2, embedded images 3, garbled 4, vector text 5,
/// annotation text 6; reading a place back gives the reason that sits there.
pub proof fn lemma_reason_places(r: ComplexityReason, i: nat)
    ensures
        (reason_index(r) == 0) == (r is Scanned),
        (reason_index(r) == 1) == (r is NoText),
        (reason_index(r) == 2) == (r is SparseText),
        (reason_index(r) == 3) == (r is EmbeddedImages),
        (reason_index(r) == 4) == (r is Garbled),
        (reason_index(r) == 5) == (r is VectorText),
        (reason_index(r) == 6) == (r is AnnotationText),
        i < 7 ==> reason_index(reason_at(i)) == i,
{
}

/// Each layout reason sits at its own place: multi-column 0, table likely
/// 1, dense graphics 2; reading a place back gives the reason there.
pub proof fn lemma_layout_reason_places(r: LayoutComplexityReason, i: nat)
    ensures
        (layout_reason_index(r) == 0) == (r is MultiColumn),
        (layout_reason_index(r) == 1) == (r is TableLikely),
        (layout_reason_index(r) == 2) == (r is DenseGraphics),
        i < 3 ==> layout_reason_index(layout_reason_at(i)) == i,
{
}

} // verus!
