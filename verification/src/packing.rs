//! Packing whole arrays of core values into records: through `From` where a
//! record needs nothing else, through the string pool where it holds
//! strings.

use vstd::prelude::*;
use vstd::std_specs::convert::FromSpec;
use vstd::utf8::encode_utf8;
use crate::pool::Pool;
use crate::records::{
    LiteParseOutlineEntry, LiteParsePageError, LiteParseXfaPacket, OutlineTarget, PageError,
    XfaPacket, bit_if, opt_bytes, or_zero, str_at, LITEPARSE_OUTLINE_FLAG_HAS_Y_PDF,
    LITEPARSE_XFA_FLAG_HAS_CONTENT,
};

verus! {

/// One record per item, each converted by `V::from`.
pub fn views<'a, C, V: From<&'a C>>(items: &'a [C]) -> (r: Vec<V>)
    ensures
        r@.len() == items@.len(),
        V::obeys_from_spec() ==> forall|i: int|
            0 <= i < items@.len() ==> #[trigger] r@[i] == V::from_spec(&items@[i]),
{
    let mut out: Vec<V> = Vec::new();
    let mut i: usize = 0;
    while i < items.len()
        invariant
            0 <= i <= items@.len(),
            out@.len() == i,
            V::obeys_from_spec() ==> forall|k: int|
                0 <= k < i ==> #[trigger] out@[k] == V::from_spec(&items@[k]),
        decreases items@.len() - i,
    {
        out.push(V::from(&items[i]));
        i = i + 1;
    }
    out
}

/// A record that packs a core value `C`, copying its strings into the
/// pool.
pub trait PackFrom<C>: Sized {
    /// The bytes packing `item` appends to the pool.
    spec fn appended(item: &C) -> Seq<u8>;

    /// The record `item` packs to when the pool already holds `start`
    /// bytes.
    spec fn packed(start: nat, item: &C) -> Self;

    fn pack_from(pool: &mut Pool, item: &C) -> (r: Self)
        requires
            old(pool).view().len() + Self::appended(item).len() <= u32::MAX,
        ensures
            final(pool).view() == old(pool).view() + Self::appended(item),
            r == Self::packed(old(pool).view().len(), item),
    ;
}

/// The bytes packing every item appends, in order.
pub open spec fn all_appended<C, V: PackFrom<C>>(items: Seq<C>) -> Seq<u8>
    decreases items.len(),
{
    if items.len() == 0 {
        Seq::empty()
    } else {
        all_appended::<C, V>(items.drop_last()) + V::appended(&items.last())
    }
}

/// What the pool holds when item `i` is packed.
pub open spec fn start_of<C, V: PackFrom<C>>(start: nat, items: Seq<C>, i: int) -> nat {
    start + all_appended::<C, V>(items.take(i)).len()
}

pub proof fn lemma_appended_prefix<C, V: PackFrom<C>>(items: Seq<C>, i: int)
    requires
        0 <= i <= items.len(),
    ensures
        all_appended::<C, V>(items.take(i)).len() <= all_appended::<C, V>(items).len(),
    decreases items.len() - i,
{
    if i < items.len() {
        lemma_appended_prefix::<C, V>(items, i + 1);
        assert(items.take(i + 1).drop_last() =~= items.take(i));
    } else {
        assert(items.take(i) =~= items);
    }
}

/// Pack every item through the pool, in order.
pub fn pack_all<C, V: PackFrom<C>>(pool: &mut Pool, items: &[C]) -> (r: Vec<V>)
    requires
        old(pool).view().len() + all_appended::<C, V>(items@).len() <= u32::MAX,
    ensures
        final(pool).view() == old(pool).view() + all_appended::<C, V>(items@),
        r@.len() == items@.len(),
        forall|i: int|
            0 <= i < items@.len() ==> #[trigger] r@[i] == V::packed(
                start_of::<C, V>(old(pool).view().len(), items@, i),
                &items@[i],
            ),
{
    let ghost before = pool.view();
    let mut out: Vec<V> = Vec::new();
    let mut i: usize = 0;
    while i < items.len()
        invariant
            0 <= i <= items@.len(),
            before.len() + all_appended::<C, V>(items@).len() <= u32::MAX,
            pool.view() == before + all_appended::<C, V>(items@.take(i as int)),
            out@.len() == i,
            forall|k: int|
                0 <= k < i ==> #[trigger] out@[k] == V::packed(
                    start_of::<C, V>(before.len(), items@, k),
                    &items@[k],
                ),
        decreases items@.len() - i,
    {
        proof {
            lemma_appended_prefix::<C, V>(items@, i + 1);
            assert(items@.take(i + 1).drop_last() =~= items@.take(i as int));
            assert(items@.take(i + 1).last() == items@[i as int]);
        }
        let packed = V::pack_from(pool, &items[i]);
        out.push(packed);
        i = i + 1;
        proof {
            assert(pool.view() =~= before + all_appended::<C, V>(items@.take(i as int)));
        }
    }
    proof {
        assert(items@.take(items@.len() as int) =~= items@);
    }
    out
}

impl PackFrom<PageError> for LiteParsePageError {
    open spec fn appended(item: &PageError) -> Seq<u8> {
        encode_utf8(item.message@)
    }

    open spec fn packed(start: nat, item: &PageError) -> Self {
        LiteParsePageError { message: str_at(start, Some(item.message)), page_number: item.page_number }
    }

    fn pack_from(pool: &mut Pool, item: &PageError) -> (r: Self) {
        LiteParsePageError::pack(pool, item)
    }
}

impl PackFrom<XfaPacket> for LiteParseXfaPacket {
    open spec fn appended(item: &XfaPacket) -> Seq<u8> {
        opt_bytes(item.name) + opt_bytes(item.content)
    }

    open spec fn packed(start: nat, item: &XfaPacket) -> Self {
        LiteParseXfaPacket {
            name: str_at(start, item.name),
            content: str_at(start + opt_bytes(item.name).len(), item.content),
            index: item.index,
            content_length: item.content_length,
            flags: bit_if(item.content is Some, LITEPARSE_XFA_FLAG_HAS_CONTENT),
        }
    }

    fn pack_from(pool: &mut Pool, item: &XfaPacket) -> (r: Self) {
        let r = LiteParseXfaPacket::pack(pool, item);
        proof {
            assert(pool.view() =~= old(pool).view() + (opt_bytes(item.name) + opt_bytes(item.content)));
        }
        r
    }
}

impl PackFrom<OutlineTarget> for LiteParseOutlineEntry {
    open spec fn appended(item: &OutlineTarget) -> Seq<u8> {
        encode_utf8(item.title@)
    }

    open spec fn packed(start: nat, item: &OutlineTarget) -> Self {
        LiteParseOutlineEntry {
            title: str_at(start, Some(item.title)),
            page_index: item.page_index,
            y_pdf: or_zero(item.y_pdf, 0u32),
            level: item.level as u32,
            flags: bit_if(item.y_pdf is Some, LITEPARSE_OUTLINE_FLAG_HAS_Y_PDF),
        }
    }

    fn pack_from(pool: &mut Pool, item: &OutlineTarget) -> (r: Self) {
        LiteParseOutlineEntry::pack(pool, item)
    }
}

} // verus!
