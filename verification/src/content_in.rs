//! Caller-supplied content as a whole: every page with its blocks and
//! complexity signals, the document's blocks, its outline and its
//! images, checked in order; the first failure is reported under the
//! record's place.

use vstd::prelude::*;
use vstd::string::StringExecFns;
use crate::check::{
    LiteParseRect, all_finite, finite, finite_rect, known_flags, only_known, range_fits, range_message,
    rect_finite,
};
use crate::config::{check_size, size_message};
use crate::content::{
    BlockArrays, LiteParseLayoutBlock, LiteParseLayoutCell, LiteParseLayoutRow, PositionedBlock, block_error, block_matches, copy_block,
    opt_view, range_of, str_error, str_field, str_ok, str_text, text_field, text_or_empty,
};
use crate::handle::LiteParseByteView;
use crate::page::{
    ContentArrays, LiteParsePage, Page, copy_page, first_bad, lemma_first_bad, page_error,
    page_matches, LITEPARSE_PAGE_FLAG_HAS_COMPLEXITY,
};
use crate::pool::LiteParseStr;
use crate::records::{
    LiteParseOutlineEntry, OutlineTarget, PageComplexityStats, stats_of_record,
    LITEPARSE_OUTLINE_FLAG_HAS_Y_PDF,
};
use crate::status::{FfiError, FfiResult, LITEPARSE_STATUS_INVALID_ARGUMENT};
use crate::text::{decimal, label_of, push_decimal};

verus! {

/// The place of entry `k` of a top-level array `name`.
pub open spec fn indexed(name: Seq<char>, k: nat) -> Seq<char> {
    name + "["@ + decimal(k) + "]"@
}

pub fn index_place(name: &str, k: usize) -> (s: String)
    ensures
        s@ == indexed(name@, k as nat),
{
    let mut s = String::from_str(name);
    s.append("[");
    push_decimal(&mut s, k as u64);
    s.append("]");
    s
}

// Blocks.
/// The first failure reading the blocks `offset..offset + count`, each at
/// its absolute place.
pub open spec fn blocks_error(a: BlockArrays, blocks: Seq<LiteParseLayoutBlock>, offset: u32, count: u32) -> Option<
    Seq<char>,
> {
    if !range_fits(offset, count, blocks.len()) {
        Some(range_message("content"@, "blocks"@, offset, count, blocks.len()))
    } else {
        let r = range_of(blocks, offset, count);
        let i = first_bad(block_ok(a, r, offset), r.len() as int);
        if i < r.len() {
            block_error(a.pool@, a.strings@, a.cells@, a.rows@, r[i], indexed("blocks"@, (offset + i) as nat))
        } else {
            None
        }
    }
}

/// Whether block `k` of the range `r` starting at `offset` reads.
pub open spec fn block_ok(a: BlockArrays, r: Seq<LiteParseLayoutBlock>, offset: u32) -> spec_fn(int) -> bool {
    |k: int|
        block_error(a.pool@, a.strings@, a.cells@, a.rows@, r[k], indexed("blocks"@, (offset + k) as nat))
            is None
}

pub open spec fn blocks_match(
    out: Seq<PositionedBlock>,
    a: BlockArrays,
    blocks: Seq<LiteParseLayoutBlock>,
    offset: u32,
    count: u32,
) -> bool {
    let r = range_of(blocks, offset, count);
    &&& out.len() == r.len()
    &&& forall|k: int|
        0 <= k < r.len() ==> block_matches(#[trigger] out[k], a.pool@, a.strings@, a.cells@, a.rows@, r[k])
}

/// Read the blocks `offset..offset + count`.
pub fn copy_blocks(a: &BlockArrays, blocks: &[LiteParseLayoutBlock], offset: u32, count: u32) -> (r: FfiResult<
    Vec<PositionedBlock>,
>)
    ensures
        r is Ok <==> blocks_error(*a, blocks@, offset, count) is None,
        r matches Ok(v) ==> blocks_match(v@, *a, blocks@, offset, count),
        r matches Err(e) ==> e.status == LITEPARSE_STATUS_INVALID_ARGUMENT && Some(e.message@)
            == blocks_error(*a, blocks@, offset, count),
{
    let range = match crate::check::sub(blocks, offset, count, "content", "blocks") {
        Ok(v) => v,
        Err(e) => return Err(e),
    };
    let ghost rs = range_of(blocks@, offset, count);
    assert(range@ == rs);
    let ghost ok = block_ok(*a, rs, offset);
    let n = blocks.len();
    let mut out: Vec<PositionedBlock> = Vec::new();
    let mut i: usize = 0;
    while i < range.len()
        invariant
            0 <= i <= range@.len(),
            range@ == rs,
            rs == range_of(blocks@, offset, count),
            rs.len() <= u32::MAX,
            count == 0 || offset + count <= blocks@.len(),
            n == blocks@.len(),
            rs.len() == count,
            ok == block_ok(*a, rs, offset),
            forall|k: int| 0 <= k < i ==> #[trigger] ok(k),
            out@.len() == i,
            forall|k: int|
                0 <= k < i ==> block_matches(#[trigger] out@[k], a.pool@, a.strings@, a.cells@, a.rows@, rs[k]),
        decreases range@.len() - i,
    {
        proof {
            lemma_first_bad(ok, rs.len() as int);
        }
        let where_ = index_place("blocks", offset as usize + i);
        match copy_block(&range[i], where_.as_str(), a) {
            Ok(b) => out.push(b),
            Err(e) => {
                proof {
                    lemma_first_bad_at(ok, rs.len() as int, i as int);
                }
                return Err(e);
            },
        }
        i = i + 1;
    }
    proof {
        lemma_first_bad(ok, rs.len() as int);
        lemma_first_bad_all(ok, rs.len() as int);
    }
    Ok(out)
}

/// The first failing check is the first index that fails.
pub proof fn lemma_first_bad_at(ok: spec_fn(int) -> bool, n: int, i: int)
    requires
        0 <= i < n,
        forall|k: int| 0 <= k < i ==> #[trigger] ok(k),
        !ok(i),
    ensures
        first_bad(ok, n) == i,
    decreases n,
{
    lemma_first_bad(ok, n);
    if first_bad(ok, n) < i {
        assert(ok(first_bad(ok, n)));
    }
}

pub proof fn lemma_first_bad_all(ok: spec_fn(int) -> bool, n: int)
    requires
        0 <= n,
        forall|k: int| 0 <= k < n ==> #[trigger] ok(k),
    ensures
        first_bad(ok, n) == n,
{
    lemma_first_bad(ok, n);
    if first_bad(ok, n) < n {
        assert(ok(first_bad(ok, n)));
    }
}

// Outline.
/// Every `LITEPARSE_OUTLINE_FLAG_*` bit.
pub const OUTLINE_FLAGS: u32 = 1;

/// The first failing check of an outline entry at `where_`.
pub open spec fn outline_error(pool: Seq<u8>, e: LiteParseOutlineEntry, where_: Seq<char>) -> Option<Seq<char>> {
    if !only_known(e.flags, OUTLINE_FLAGS) {
        Some(label_of(where_, ""@) + ".flags contains unknown bits"@)
    } else if !all_finite(seq![e.y_pdf]) {
        Some(label_of(where_, "y_pdf"@) + " must be finite"@)
    } else if e.level > 255 {
        Some(where_ + ".level must fit in u8"@)
    } else if !str_ok(pool, e.title) {
        Some(str_error(pool, e.title, where_, "title"@))
    } else {
        None
    }
}

pub open spec fn outline_matches(o: OutlineTarget, pool: Seq<u8>, e: LiteParseOutlineEntry) -> bool {
    &&& o.level == e.level
    &&& o.title@ == text_or_empty(pool, e.title)
    &&& o.page_index == e.page_index
    &&& o.y_pdf == (if e.flags & LITEPARSE_OUTLINE_FLAG_HAS_Y_PDF != 0 {
        Some(e.y_pdf)
    } else {
        None
    })
}

/// Read one outline entry at place `where_`.
pub fn copy_outline_entry(pool: &[u8], e: &LiteParseOutlineEntry, where_: &str) -> (r: FfiResult<
    OutlineTarget,
>)
    ensures
        r is Ok <==> outline_error(pool@, *e, where_@) is None,
        r matches Ok(o) ==> outline_matches(o, pool@, *e),
        r matches Err(err) ==> err.status == LITEPARSE_STATUS_INVALID_ARGUMENT && Some(err.message@)
            == outline_error(pool@, *e, where_@),
{
    match known_flags(e.flags, OUTLINE_FLAGS, where_, "") {
        Ok(()) => {},
        Err(err) => return Err(err),
    }
    let values = vec![e.y_pdf];
    assert(values@ == seq![e.y_pdf]);
    match finite(values.as_slice(), where_, "y_pdf") {
        Ok(()) => {},
        Err(err) => return Err(err),
    }
    if e.level > 255 {
        let mut message = String::from_str(where_);
        message.append(".level must fit in u8");
        return Err(FfiError::invalid_argument(message));
    }
    let title = match text_field(pool, e.title, where_, "title") {
        Ok(t) => t,
        Err(err) => return Err(err),
    };
    let y_pdf = if e.flags & LITEPARSE_OUTLINE_FLAG_HAS_Y_PDF != 0 {
        Some(e.y_pdf)
    } else {
        None
    };
    Ok(OutlineTarget { level: e.level as u8, title, page_index: e.page_index, y_pdf })
}

// Images.
/// An image the caller supplies; `bytes` is a view of its encoded bytes,
/// `rotation` is `f32` bits.
#[derive(Clone, Copy, Debug, PartialEq, Eq, Structural)]
pub struct LiteParseImage {
    pub id: LiteParseStr,
    pub name: LiteParseStr,
    pub path: LiteParseStr,
    pub format: LiteParseStr,
    pub duplicate_of: LiteParseStr,
    pub bytes: LiteParseByteView,
    pub bbox: LiteParseRect,
    pub page: u32,
    pub width: u32,
    pub height: u32,
    pub rotation: u32,
}

/// An extracted image as the core holds it.
pub struct ExtractedImage {
    pub id: String,
    pub name: String,
    pub path: Option<String>,
    pub page: u32,
    pub bbox: LiteParseRect,
    pub width: u32,
    pub height: u32,
    pub rotation: u32,
    pub format: String,
    pub duplicate_of: Option<String>,
    pub bytes: Vec<u8>,
}

pub open spec fn image_error(pool: Seq<u8>, m: LiteParseImage, where_: Seq<char>) -> Option<Seq<char>> {
    if !rect_finite(m.bbox) {
        Some(label_of(where_, "bbox"@) + " must be finite"@)
    } else if !all_finite(seq![m.rotation]) {
        Some(label_of(where_, "rotation"@) + " must be finite"@)
    } else if !str_ok(pool, m.id) {
        Some(str_error(pool, m.id, where_, "id"@))
    } else if !str_ok(pool, m.name) {
        Some(str_error(pool, m.name, where_, "name"@))
    } else if !str_ok(pool, m.path) {
        Some(str_error(pool, m.path, where_, "path"@))
    } else if !str_ok(pool, m.format) {
        Some(str_error(pool, m.format, where_, "format"@))
    } else if !str_ok(pool, m.duplicate_of) {
        Some(str_error(pool, m.duplicate_of, where_, "duplicate_of"@))
    } else {
        None
    }
}

pub open spec fn image_matches(o: ExtractedImage, pool: Seq<u8>, m: LiteParseImage, bytes: Seq<u8>) -> bool {
    &&& o.id@ == text_or_empty(pool, m.id)
    &&& o.name@ == text_or_empty(pool, m.name)
    &&& opt_view(o.path) == str_text(pool, m.path)
    &&& o.page == m.page && o.bbox == m.bbox && o.width == m.width && o.height == m.height
    &&& o.rotation == m.rotation
    &&& o.format@ == text_or_empty(pool, m.format)
    &&& opt_view(o.duplicate_of) == str_text(pool, m.duplicate_of)
    &&& o.bytes@ == bytes
}

/// Read one image at place `where_`; `bytes` are the bytes its view
/// names.
pub fn copy_image(pool: &[u8], m: &LiteParseImage, bytes: &[u8], where_: &str) -> (r: FfiResult<ExtractedImage>)
    ensures
        r is Ok <==> image_error(pool@, *m, where_@) is None,
        r matches Ok(o) ==> image_matches(o, pool@, *m, bytes@),
        r matches Err(err) ==> err.status == LITEPARSE_STATUS_INVALID_ARGUMENT && Some(err.message@)
            == image_error(pool@, *m, where_@),
{
    match finite_rect(&m.bbox, where_, "bbox") {
        Ok(()) => {},
        Err(err) => return Err(err),
    }
    let values = vec![m.rotation];
    assert(values@ == seq![m.rotation]);
    match finite(values.as_slice(), where_, "rotation") {
        Ok(()) => {},
        Err(err) => return Err(err),
    }
    let id = match text_field(pool, m.id, where_, "id") {
        Ok(t) => t,
        Err(err) => return Err(err),
    };
    let name = match text_field(pool, m.name, where_, "name") {
        Ok(t) => t,
        Err(err) => return Err(err),
    };
    let path = match str_field(pool, m.path, where_, "path") {
        Ok(t) => t,
        Err(err) => return Err(err),
    };
    let format = match text_field(pool, m.format, where_, "format") {
        Ok(t) => t,
        Err(err) => return Err(err),
    };
    let duplicate_of = match str_field(pool, m.duplicate_of, where_, "duplicate_of") {
        Ok(t) => t,
        Err(err) => return Err(err),
    };
    let mut copied: Vec<u8> = Vec::new();
    crate::projected::append_copies(&mut copied, bytes);
    Ok(
        ExtractedImage {
            id,
            name,
            path,
            page: m.page,
            bbox: m.bbox,
            width: m.width,
            height: m.height,
            rotation: m.rotation,
            format,
            duplicate_of,
            bytes: copied,
        },
    )
}

// Pages.
/// The first failure reading page `k`: the page itself, then its blocks.
pub open spec fn page_in_error(
    a: ContentArrays,
    ba: BlockArrays,
    blocks: Seq<LiteParseLayoutBlock>,
    p: LiteParsePage,
    k: nat,
) -> Option<Seq<char>> {
    if page_error(a, p, indexed("pages"@, k)) is Some {
        page_error(a, p, indexed("pages"@, k))
    } else {
        blocks_error(ba, blocks, p.block_offset, p.block_count)
    }
}

pub open spec fn page_in_ok(
    a: ContentArrays,
    ba: BlockArrays,
    blocks: Seq<LiteParseLayoutBlock>,
    ps: Seq<LiteParsePage>,
) -> spec_fn(int) -> bool {
    |k: int| page_in_error(a, ba, blocks, ps[k], k as nat) is None
}

/// The first failure reading the pages, in order.
pub open spec fn pages_error(
    a: ContentArrays,
    ba: BlockArrays,
    blocks: Seq<LiteParseLayoutBlock>,
    ps: Seq<LiteParsePage>,
) -> Option<Seq<char>> {
    let i = first_bad(page_in_ok(a, ba, blocks, ps), ps.len() as int);
    if i < ps.len() {
        page_in_error(a, ba, blocks, ps[i], i as nat)
    } else {
        None
    }
}

/// The pages read, each with its blocks and its complexity signals.
pub struct OwnedPages {
    pub pages: Vec<Page>,
    pub page_blocks: Vec<Vec<PositionedBlock>>,
    pub page_stats: Vec<Option<PageComplexityStats>>,
}

/// `o` holds what the page records `ps` hold.
pub open spec fn pages_match(
    o: OwnedPages,
    a: ContentArrays,
    ba: BlockArrays,
    blocks: Seq<LiteParseLayoutBlock>,
    ps: Seq<LiteParsePage>,
) -> bool {
    &&& o.pages@.len() == ps.len()
    &&& o.page_blocks@.len() == ps.len()
    &&& o.page_stats@.len() == ps.len()
    &&& forall|k: int| 0 <= k < ps.len() ==> page_matches(#[trigger] o.pages@[k], a, ps[k])
    &&& forall|k: int|
        0 <= k < ps.len() ==> blocks_match(
            (#[trigger] o.page_blocks@[k])@,
            ba,
            blocks,
            ps[k].block_offset,
            ps[k].block_count,
        )
    &&& forall|k: int|
        0 <= k < ps.len() ==> ((#[trigger] o.page_stats@[k] is Some) == (ps[k].flags
            & LITEPARSE_PAGE_FLAG_HAS_COMPLEXITY != 0)) && (o.page_stats@[k] matches Some(st)
            ==> stats_of_record(ps[k].complexity, st))
}

/// Read every page record, with its blocks and complexity signals.
pub fn copy_pages(a: &ContentArrays, ba: &BlockArrays, blocks: &[LiteParseLayoutBlock], ps: &[LiteParsePage]) -> (r:
    FfiResult<OwnedPages>)
    requires
        a.structure_nodes@.len() <= u32::MAX,
    ensures
        r is Ok <==> pages_error(*a, *ba, blocks@, ps@) is None,
        r matches Ok(o) ==> pages_match(o, *a, *ba, blocks@, ps@),
        r matches Err(e) ==> e.status == LITEPARSE_STATUS_INVALID_ARGUMENT && Some(e.message@)
            == pages_error(*a, *ba, blocks@, ps@),
{
    let ghost ok = page_in_ok(*a, *ba, blocks@, ps@);
    let mut out = OwnedPages { pages: Vec::new(), page_blocks: Vec::new(), page_stats: Vec::new() };
    let mut i: usize = 0;
    while i < ps.len()
        invariant
            0 <= i <= ps@.len(),
            a.structure_nodes@.len() <= u32::MAX,
            ok == page_in_ok(*a, *ba, blocks@, ps@),
            forall|k: int| 0 <= k < i ==> #[trigger] ok(k),
            out.pages@.len() == i,
            out.page_blocks@.len() == i,
            out.page_stats@.len() == i,
            forall|k: int| 0 <= k < i ==> page_matches(#[trigger] out.pages@[k], *a, ps@[k]),
            forall|k: int|
                0 <= k < i ==> blocks_match(
                    (#[trigger] out.page_blocks@[k])@,
                    *ba,
                    blocks@,
                    ps@[k].block_offset,
                    ps@[k].block_count,
                ),
            forall|k: int|
                0 <= k < i ==> ((#[trigger] out.page_stats@[k] is Some) == (ps@[k].flags
                    & LITEPARSE_PAGE_FLAG_HAS_COMPLEXITY != 0)) && (out.page_stats@[k] matches Some(st)
                    ==> stats_of_record(ps@[k].complexity, st)),
        decreases ps@.len() - i,
    {
        let p = &ps[i];
        let where_ = index_place("pages", i);
        let page = match copy_page(p, where_.as_str(), a) {
            Ok(v) => v,
            Err(e) => {
                proof {
                    lemma_first_bad_at(ok, ps@.len() as int, i as int);
                }
                return Err(e);
            },
        };
        let page_blocks = match copy_blocks(ba, blocks, p.block_offset, p.block_count) {
            Ok(v) => v,
            Err(e) => {
                proof {
                    lemma_first_bad_at(ok, ps@.len() as int, i as int);
                }
                return Err(e);
            },
        };
        let stats = if p.flags & LITEPARSE_PAGE_FLAG_HAS_COMPLEXITY != 0 {
            Some(p.complexity.to_stats())
        } else {
            None
        };
        out.pages.push(page);
        out.page_blocks.push(page_blocks);
        out.page_stats.push(stats);
        i = i + 1;
    }
    proof {
        lemma_first_bad_all(ok, ps@.len() as int);
    }
    Ok(out)
}

// Outline and images.
pub open spec fn outline_ok(pool: Seq<u8>, es: Seq<LiteParseOutlineEntry>) -> spec_fn(int) -> bool {
    |k: int| outline_error(pool, es[k], indexed("outline"@, k as nat)) is None
}

pub open spec fn outlines_error(pool: Seq<u8>, es: Seq<LiteParseOutlineEntry>) -> Option<Seq<char>> {
    let i = first_bad(outline_ok(pool, es), es.len() as int);
    if i < es.len() {
        outline_error(pool, es[i], indexed("outline"@, i as nat))
    } else {
        None
    }
}

pub fn copy_outline(pool: &[u8], es: &[LiteParseOutlineEntry]) -> (r: FfiResult<Vec<OutlineTarget>>)
    ensures
        r is Ok <==> outlines_error(pool@, es@) is None,
        r matches Ok(v) ==> v@.len() == es@.len() && forall|k: int|
            0 <= k < es@.len() ==> outline_matches(#[trigger] v@[k], pool@, es@[k]),
        r matches Err(e) ==> e.status == LITEPARSE_STATUS_INVALID_ARGUMENT && Some(e.message@)
            == outlines_error(pool@, es@),
{
    let ghost ok = outline_ok(pool@, es@);
    let mut out: Vec<OutlineTarget> = Vec::new();
    let mut i: usize = 0;
    while i < es.len()
        invariant
            0 <= i <= es@.len(),
            ok == outline_ok(pool@, es@),
            forall|k: int| 0 <= k < i ==> #[trigger] ok(k),
            out@.len() == i,
            forall|k: int| 0 <= k < i ==> outline_matches(#[trigger] out@[k], pool@, es@[k]),
        decreases es@.len() - i,
    {
        let where_ = index_place("outline", i);
        match copy_outline_entry(pool, &es[i], where_.as_str()) {
            Ok(o) => out.push(o),
            Err(e) => {
                proof {
                    lemma_first_bad_at(ok, es@.len() as int, i as int);
                }
                return Err(e);
            },
        }
        i = i + 1;
    }
    proof {
        lemma_first_bad_all(ok, es@.len() as int);
    }
    Ok(out)
}

pub open spec fn image_ok(pool: Seq<u8>, ms: Seq<LiteParseImage>) -> spec_fn(int) -> bool {
    |k: int| image_error(pool, ms[k], indexed("images"@, k as nat)) is None
}

pub open spec fn images_error(pool: Seq<u8>, ms: Seq<LiteParseImage>) -> Option<Seq<char>> {
    let i = first_bad(image_ok(pool, ms), ms.len() as int);
    if i < ms.len() {
        image_error(pool, ms[i], indexed("images"@, i as nat))
    } else {
        None
    }
}

/// Read every image; `bytes[k]` are the bytes image `k`'s view names.
pub fn copy_images(pool: &[u8], ms: &[LiteParseImage], bytes: &[Vec<u8>]) -> (r: FfiResult<Vec<ExtractedImage>>)
    requires
        bytes@.len() == ms@.len(),
    ensures
        r is Ok <==> images_error(pool@, ms@) is None,
        r matches Ok(v) ==> v@.len() == ms@.len() && forall|k: int|
            0 <= k < ms@.len() ==> image_matches(#[trigger] v@[k], pool@, ms@[k], bytes@[k]@),
        r matches Err(e) ==> e.status == LITEPARSE_STATUS_INVALID_ARGUMENT && Some(e.message@)
            == images_error(pool@, ms@),
{
    let ghost ok = image_ok(pool@, ms@);
    let mut out: Vec<ExtractedImage> = Vec::new();
    let mut i: usize = 0;
    while i < ms.len()
        invariant
            0 <= i <= ms@.len(),
            bytes@.len() == ms@.len(),
            ok == image_ok(pool@, ms@),
            forall|k: int| 0 <= k < i ==> #[trigger] ok(k),
            out@.len() == i,
            forall|k: int| 0 <= k < i ==> image_matches(#[trigger] out@[k], pool@, ms@[k], bytes@[k]@),
        decreases ms@.len() - i,
    {
        let where_ = index_place("images", i);
        match copy_image(pool, &ms[i], bytes[i].as_slice(), where_.as_str()) {
            Ok(o) => out.push(o),
            Err(e) => {
                proof {
                    lemma_first_bad_at(ok, ms@.len() as int, i as int);
                }
                return Err(e);
            },
        }
        i = i + 1;
    }
    proof {
        lemma_first_bad_all(ok, ms@.len() as int);
    }
    Ok(out)
}

// Whole content.
/// The arrays of a caller's content view, already checked to be arrays,
/// with the bytes each image's view names.
pub struct ContentInput<'a> {
    pub size_of_content: usize,
    pub arrays: ContentArrays<'a>,
    pub blocks: &'a [LiteParseLayoutBlock],
    pub cells: &'a [LiteParseLayoutCell],
    pub rows: &'a [LiteParseLayoutRow],
    pub pages: &'a [LiteParsePage],
    pub outline: &'a [LiteParseOutlineEntry],
    pub images: &'a [LiteParseImage],
    pub image_bytes: &'a [Vec<u8>],
    pub document_block_offset: u32,
    pub document_block_count: u32,
}

/// The arrays blocks read from.
pub open spec fn block_arrays<'a>(c: ContentInput<'a>) -> BlockArrays<'a> {
    BlockArrays { pool: c.arrays.pool, strings: c.arrays.strings, cells: c.cells, rows: c.rows }
}

/// The first failure reading a caller's content, in the order the checks
/// are made: its declared size, its pages, the document's blocks, its
/// outline, its images.
pub open spec fn content_error(c: ContentInput, expected_size: usize) -> Option<Seq<char>> {
    let ba = block_arrays(c);
    if c.size_of_content != expected_size {
        Some(size_message("content"@, c.size_of_content, expected_size))
    } else if pages_error(c.arrays, ba, c.blocks@, c.pages@) is Some {
        pages_error(c.arrays, ba, c.blocks@, c.pages@)
    } else if c.document_block_count != 0 && blocks_error(
        ba,
        c.blocks@,
        c.document_block_offset,
        c.document_block_count,
    ) is Some {
        blocks_error(ba, c.blocks@, c.document_block_offset, c.document_block_count)
    } else if outlines_error(c.arrays.pool@, c.outline@) is Some {
        outlines_error(c.arrays.pool@, c.outline@)
    } else {
        images_error(c.arrays.pool@, c.images@)
    }
}

/// What a caller's content gives.
pub struct OwnedContent {
    pub pages: Vec<Page>,
    /// Each page's blocks; empty when neither the document nor any page
    /// supplies blocks.
    pub page_blocks: Vec<Vec<PositionedBlock>>,
    pub page_stats: Vec<Option<PageComplexityStats>>,
    pub document_blocks: Option<Vec<PositionedBlock>>,
    pub outline: Vec<OutlineTarget>,
    pub images: Vec<ExtractedImage>,
}

/// Whether neither the document nor any page supplies blocks.
pub open spec fn no_blocks(c: ContentInput) -> bool {
    c.document_block_count == 0 && forall|k: int| 0 <= k < c.pages@.len() ==> (#[trigger] c.pages@[k]).block_count == 0
}

/// `o` holds what content `c` holds.
pub open spec fn content_matches(o: OwnedContent, c: ContentInput) -> bool {
    let ba = block_arrays(c);
    let ps = c.pages@;
    &&& o.pages@.len() == ps.len()
    &&& forall|k: int| 0 <= k < ps.len() ==> page_matches(#[trigger] o.pages@[k], c.arrays, ps[k])
    &&& o.page_stats@.len() == ps.len()
    &&& forall|k: int|
        0 <= k < ps.len() ==> ((#[trigger] o.page_stats@[k] is Some) == (ps[k].flags
            & LITEPARSE_PAGE_FLAG_HAS_COMPLEXITY != 0)) && (o.page_stats@[k] matches Some(st)
            ==> stats_of_record(ps[k].complexity, st))
    &&& no_blocks(c) ==> o.page_blocks@.len() == 0
    &&& !no_blocks(c) ==> o.page_blocks@.len() == ps.len() && forall|k: int|
        0 <= k < ps.len() ==> blocks_match(
            (#[trigger] o.page_blocks@[k])@,
            ba,
            c.blocks@,
            ps[k].block_offset,
            ps[k].block_count,
        )
    &&& (o.document_blocks is Some) == (c.document_block_count != 0)
    &&& o.document_blocks matches Some(v) ==> blocks_match(
        v@,
        ba,
        c.blocks@,
        c.document_block_offset,
        c.document_block_count,
    )
    &&& o.outline@.len() == c.outline@.len()
    &&& forall|k: int|
        0 <= k < c.outline@.len() ==> outline_matches(#[trigger] o.outline@[k], c.arrays.pool@, c.outline@[k])
    &&& o.images@.len() == c.images@.len()
    &&& forall|k: int|
        0 <= k < c.images@.len() ==> image_matches(
            #[trigger] o.images@[k],
            c.arrays.pool@,
            c.images@[k],
            c.image_bytes@[k]@,
        )
}

/// Read a caller's whole content; `expected_size` is this library's size
/// of the content view.
pub fn owned_content(c: &ContentInput, expected_size: usize) -> (r: FfiResult<OwnedContent>)
    requires
        c.arrays.structure_nodes@.len() <= u32::MAX,
        c.image_bytes@.len() == c.images@.len(),
    ensures
        r is Ok <==> content_error(*c, expected_size) is None,
        r matches Ok(o) ==> content_matches(o, *c),
        r matches Err(e) ==> e.status == LITEPARSE_STATUS_INVALID_ARGUMENT && Some(e.message@)
            == content_error(*c, expected_size),
{
    match check_size("content", c.size_of_content, expected_size) {
        Ok(()) => {},
        Err(e) => return Err(e),
    }
    let ba = BlockArrays { pool: c.arrays.pool, strings: c.arrays.strings, cells: c.cells, rows: c.rows };
    assert(ba == block_arrays(*c));
    let owned = match copy_pages(&c.arrays, &ba, c.blocks, c.pages) {
        Ok(o) => o,
        Err(e) => return Err(e),
    };
    let document_blocks = if c.document_block_count != 0 {
        match copy_blocks(&ba, c.blocks, c.document_block_offset, c.document_block_count) {
            Ok(v) => Some(v),
            Err(e) => return Err(e),
        }
    } else {
        None
    };
    let mut any_page_blocks = false;
    let mut i: usize = 0;
    while i < c.pages.len()
        invariant
            0 <= i <= c.pages@.len(),
            any_page_blocks == exists|k: int| 0 <= k < i && (#[trigger] c.pages@[k]).block_count != 0,
        decreases c.pages@.len() - i,
    {
        if c.pages[i].block_count != 0 {
            any_page_blocks = true;
        }
        i = i + 1;
    }
    let page_blocks = if document_blocks.is_none() && !any_page_blocks {
        Vec::new()
    } else {
        owned.page_blocks
    };
    let outline = match copy_outline(c.arrays.pool, c.outline) {
        Ok(v) => v,
        Err(e) => return Err(e),
    };
    let images = match copy_images(c.arrays.pool, c.images, c.image_bytes) {
        Ok(v) => v,
        Err(e) => return Err(e),
    };
    Ok(
        OwnedContent {
            pages: owned.pages,
            page_blocks,
            page_stats: owned.page_stats,
            document_blocks,
            outline,
            images,
        },
    )
}

} // verus!
