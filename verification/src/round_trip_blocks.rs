//! Reading back the layout blocks of a packed page: their cells, rows,
//! lines and strings, and the block each record gives.

use vstd::prelude::*;
use crate::check::{only_known, range_fits, rect_finite};
use crate::content::{
    Block, BlockArrays, Cell, LiteParseLayoutCell, PositionedBlock, SpanCell, block_error, block_matches,
    cell_error, cells_error, flagged, kind_code, lemma_first_fail, lines_error, opt_view, plain_cells_match,
    range_of, row_cells, rows_error, span_cells_match, str_ok, str_text, text_or_empty, texts_of, BLOCK_FLAGS,
    CELL_FLAGS, LITEPARSE_BLOCK_FLAG_BOLD, LITEPARSE_BLOCK_FLAG_HAS_BBOX, LITEPARSE_BLOCK_FLAG_HAS_HEADER,
    LITEPARSE_BLOCK_FLAG_HAS_HEADER_ROWS, LITEPARSE_BLOCK_FLAG_HAS_LEVEL, LITEPARSE_BLOCK_FLAG_HAS_ORDERED,
    LITEPARSE_BLOCK_FLAG_ITALIC, LITEPARSE_BLOCK_FLAG_ORDERED, LITEPARSE_CELL_FLAG_HAS_BBOX,
};
use crate::pack::{
    ContentView, LayoutBlock, LayoutCell, PageParts, block_step, block_stepper, cells_step, content_parts,
    extends, fits, fold, is_prefix, lemma_extends_fits, lemma_extends_trans, lemma_fold_extends,
    lemma_fold_next, lemma_fold_take_extends, lemma_layout_steps_extend, lemma_prefix_trans, lemma_rows_len,
    lemma_simple_steps_extend, lemma_vectors_to_page, list_or_empty, page_record, page_step, pooled,
    row_stepper, vectors_step,
};
use crate::packing::all_appended;
use crate::projected::or_zero;
use crate::content_in::{block_ok, blocks_error, blocks_match, indexed};
use crate::page::{lemma_first_bad, texts};
use crate::pool::LiteParseStr;
use crate::records::{bit_if, opt_bytes};
use crate::round_trip::{lemma_read_str, read_back};
use crate::round_trip_parts::{lemma_fold_pushes, lemma_pooled_strings, lemma_prefix_drop};

verus! {

// Cells.
/// A layout cell reads back, but for an absent span read as 0, when its
/// box is finite.
pub open spec fn cells_readable(cs: Seq<LayoutCell>) -> bool {
    forall|k: int| 0 <= k < cs.len() ==> ((#[trigger] cs[k]).bbox matches Some(b) ==> rect_finite(b))
}

/// Plain cells holding the text and box of layout cells `cs`.
pub open spec fn same_cells(v: Seq<Cell>, cs: Seq<LayoutCell>) -> bool {
    v.len() == cs.len() && forall|i: int| 0 <= i < cs.len() ==> (#[trigger] v[i]).text@ == cs[i].text@ && v[i].bbox == cs[i].bbox
}

/// Merged-table cells holding the text, box and spans of layout cells
/// `cs`, an absent span as 0.
pub open spec fn same_span_cells(v: Seq<SpanCell>, cs: Seq<LayoutCell>) -> bool {
    &&& v.len() == cs.len()
    &&& forall|i: int|
        0 <= i < cs.len() ==> (#[trigger] v[i]).text@ == cs[i].text@ && v[i].bbox == cs[i].bbox && v[i].colspan
            == or_zero(cs[i].colspan, 0u16) && v[i].rowspan == or_zero(cs[i].rowspan, 0u16)
}

proof fn lemma_cell_bit(a: bool, f: u32)
    requires
        f == bit_if(a, LITEPARSE_CELL_FLAG_HAS_BBOX),
    ensures
        only_known(f, CELL_FLAGS),
        (f & LITEPARSE_CELL_FLAG_HAS_BBOX != 0) == a,
{
    assert(f & !1u32 == 0 && (f & 1 != 0) == a) by (bit_vector)
        requires
            f == bit_if(a, LITEPARSE_CELL_FLAG_HAS_BBOX),
    ;
}

/// What the records of cells `cs` pooled from `pre` on hold, in a pool
/// that keeps their bytes.
pub open spec fn cells_hold(pool: Seq<u8>, rs: Seq<LiteParseLayoutCell>, cs: Seq<LayoutCell>) -> bool {
    &&& rs.len() == cs.len()
    &&& forall|k: int|
        0 <= k < cs.len() ==> {
            &&& cell_error(pool, #[trigger] rs[k], Seq::empty(), Seq::empty()) is None
            &&& text_or_empty(pool, rs[k].text) == cs[k].text@
            &&& flagged(rs[k].flags, LITEPARSE_CELL_FLAG_HAS_BBOX, rs[k].bbox) == cs[k].bbox
            &&& rs[k].colspan == or_zero(cs[k].colspan, 0u16)
            &&& rs[k].rowspan == or_zero(cs[k].rowspan, 0u16)
        }
}

/// Cells pooled from `pre` on, in a pool that keeps those bytes, read
/// back as themselves, when readable.
pub proof fn lemma_pooled_cells(pre: Seq<u8>, cs: Seq<LayoutCell>, pool: Seq<u8>)
    requires
        is_prefix(pre + all_appended::<LayoutCell, LiteParseLayoutCell>(cs), pool),
        (pre + all_appended::<LayoutCell, LiteParseLayoutCell>(cs)).len() <= u32::MAX,
        cells_readable(cs),
    ensures
        cells_hold(pool, pooled::<LayoutCell, LiteParseLayoutCell>(pre.len(), cs), cs),
{
    let ps = pooled::<LayoutCell, LiteParseLayoutCell>(pre.len(), cs);
    assert forall|k: int| 0 <= k < cs.len() implies {
        &&& cell_error(pool, #[trigger] ps[k], Seq::empty(), Seq::empty()) is None
        &&& text_or_empty(pool, ps[k].text) == cs[k].text@
        &&& flagged(ps[k].flags, LITEPARSE_CELL_FLAG_HAS_BBOX, ps[k].bbox) == cs[k].bbox
        &&& ps[k].colspan == or_zero(cs[k].colspan, 0u16)
        &&& ps[k].rowspan == or_zero(cs[k].rowspan, 0u16)
    } by {
        crate::round_trip::lemma_appended_at::<LayoutCell, LiteParseLayoutCell>(pre, cs, k);
        let q = pre + all_appended::<LayoutCell, LiteParseLayoutCell>(cs.take(k));
        lemma_prefix_trans(
            q + <LiteParseLayoutCell as crate::packing::PackFrom<LayoutCell>>::appended(&cs[k]),
            pre + all_appended::<LayoutCell, LiteParseLayoutCell>(cs),
            pool,
        );
        lemma_read_str(pool, q, Some(cs[k].text));
        lemma_cell_bit(cs[k].bbox is Some, ps[k].flags);
    }
}

/// The cells `what` names read from a range whose records hold cells
/// `cs`: no complaint, whatever the place named.
pub proof fn lemma_cells_checks(
    pool: Seq<u8>,
    cells: Seq<LiteParseLayoutCell>,
    off: u32,
    cs: Seq<LayoutCell>,
    where_: Seq<char>,
    field: Seq<char>,
)
    requires
        off + cs.len() <= cells.len(),
        cs.len() <= u32::MAX,
        cells_hold(pool, cells.subrange(off as int, off + cs.len()), cs),
    ensures
        cells_error(pool, cells, off, cs.len() as u32, where_, field) is None,
        range_of(cells, off, cs.len() as u32) == cells.subrange(off as int, off + cs.len()),
{
    let r = range_of(cells, off, cs.len() as u32);
    assert(r =~= cells.subrange(off as int, off + cs.len()));
    let ok = |c: LiteParseLayoutCell| cell_error(pool, c, where_, field) is None;
    assert forall|k: int| 0 <= k < r.len() implies ok(#[trigger] r[k]) by {
        assert(cell_error(pool, r[k], Seq::empty(), Seq::empty()) is None);
    }
    lemma_first_fail(r, ok);
}

/// Cells read from records that hold cells `cs` are those cells.
pub proof fn lemma_cells_read(pool: Seq<u8>, rs: Seq<LiteParseLayoutCell>, cs: Seq<LayoutCell>, v: Seq<Cell>, sv: Seq<SpanCell>)
    requires
        cells_hold(pool, rs, cs),
    ensures
        plain_cells_match(v, pool, rs) ==> same_cells(v, cs),
        span_cells_match(sv, pool, rs) ==> same_span_cells(sv, cs),
{
}

// Rows.
/// Row `i` of `rs`, packed from arrays `u` on, names cells that the arrays
/// `w` keep, and whose records hold its cells.
pub open spec fn row_packed_at(u: ContentView, rs: Seq<Vec<LayoutCell>>, w: ContentView, i: int) -> bool {
    let x = fold(u, rs.take(i), row_stepper());
    let row = w.rows[u.rows.len() + i];
    &&& row.cell_offset == x.cells.len() && row.cell_count == rs[i]@.len()
    &&& x.cells.len() + rs[i]@.len() <= w.cells.len()
    &&& rs[i]@.len() <= u32::MAX
    &&& cells_hold(w.pool, w.cells.subrange(x.cells.len() as int, (x.cells.len() + rs[i]@.len()) as int), rs[i]@)
}

proof fn lemma_extends_layout(a: ContentView, b: ContentView)
    requires
        extends(a, b),
    ensures
        is_prefix(a.pool, b.pool),
        is_prefix(a.cells, b.cells),
        is_prefix(a.rows, b.rows),
        is_prefix(a.strings, b.strings),
        is_prefix(a.blocks, b.blocks),
{
    reveal(extends);
}

/// Rows packed one after the other onto arrays `u`, in arrays `w` that
/// extend what packing them gave: every row names the cells it packed.
#[verifier::spinoff_prover]
#[verifier::rlimit(40)]
pub proof fn lemma_rows_packed(u: ContentView, rs: Seq<Vec<LayoutCell>>, w: ContentView)
    requires
        extends(fold(u, rs, row_stepper()), w),
        fits(fold(u, rs, row_stepper())),
        forall|i: int| 0 <= i < rs.len() ==> cells_readable((#[trigger] rs[i])@),
    ensures
        u.rows.len() + rs.len() <= w.rows.len(),
        u.rows.len() + rs.len() <= u32::MAX,
        forall|i: int| 0 <= i < rs.len() ==> #[trigger] row_packed_at(u, rs, w, i),
{
    let f = row_stepper();
    let arr = |x: ContentView| x.rows;
    let rec = |x: ContentView, row: Vec<LayoutCell>|
        crate::content::LiteParseLayoutRow { cell_offset: x.cells.len() as u32, cell_count: row@.len() as u32 };
    lemma_fold_pushes(u, rs, f, arr, rec);
    let e = fold(u, rs, f);
    lemma_extends_layout(e, w);
    lemma_simple_steps_extend();
    assert forall|i: int| 0 <= i < rs.len() implies #[trigger] row_packed_at(u, rs, w, i) by {
        let x = fold(u, rs.take(i), f);
        let s = crate::pack::row_step(x, rs[i]);
        assert(arr(e)[u.rows.len() + i] == rec(x, rs[i]));
        lemma_fold_next(u, rs, f, i);
        lemma_fold_take_extends(u, rs, f, i + 1);
        lemma_extends_trans(s, e, w);
        lemma_extends_fits(s, e);
        lemma_extends_layout(s, w);
        let c = cells_step(x, rs[i]@);
        assert(s.pool == c.pool && s.cells == c.cells);
        let ps = pooled::<LayoutCell, LiteParseLayoutCell>(x.pool.len(), rs[i]@);
        assert(w.cells.subrange(x.cells.len() as int, (x.cells.len() + rs[i]@.len()) as int) =~= ps) by {
            assert forall|k: int| 0 <= k < ps.len() implies #[trigger] w.cells[x.cells.len() + k] == ps[k] by {
                assert(w.cells[x.cells.len() + k] == s.cells[x.cells.len() + k]);
            }
        }
        lemma_pooled_cells(x.pool, rs[i]@, w.pool);
    }
}

/// The rows of such a range pass every check the reader makes.
pub proof fn lemma_rows_checks(u: ContentView, rs: Seq<Vec<LayoutCell>>, w: ContentView, what: Seq<char>)
    requires
        u.rows.len() + rs.len() <= w.rows.len(),
        u.rows.len() + rs.len() <= u32::MAX,
        forall|i: int| 0 <= i < rs.len() ==> #[trigger] row_packed_at(u, rs, w, i),
    ensures
        rows_error(w.pool, w.cells, range_of(w.rows, u.rows.len() as u32, rs.len() as u32), what) is None,
        forall|i: int|
            0 <= i < rs.len() ==> cells_hold(
                w.pool,
                #[trigger] row_cells(w.cells, range_of(w.rows, u.rows.len() as u32, rs.len() as u32), i),
                rs[i]@,
            ),
{
    let body = range_of(w.rows, u.rows.len() as u32, rs.len() as u32);
    assert(body.len() == rs.len());
    let ok = |r: crate::content::LiteParseLayoutRow| cells_error(w.pool, w.cells, r.cell_offset, r.cell_count, what, "rows"@)
        is None;
    assert forall|i: int| 0 <= i < body.len() implies ok(#[trigger] body[i]) && cells_hold(
        w.pool,
        row_cells(w.cells, body, i),
        rs[i]@,
    ) by {
        assert(row_packed_at(u, rs, w, i));
        assert(body[i] == w.rows[u.rows.len() + i]);
        let x = fold(u, rs.take(i), row_stepper());
        lemma_cells_checks(w.pool, w.cells, body[i].cell_offset, rs[i]@, what, "rows"@);
    }
    lemma_first_fail(body, ok);
}

// Blocks.
/// The text of an optional string, empty when absent.
pub open spec fn text_of(o: Option<String>) -> Seq<char> {
    match o {
        Some(t) => t@,
        None => Seq::empty(),
    }
}

/// A layout block reads back when its kind is one the reader knows, its
/// boxes are finite, its language, if any, is not empty, a heading's level
/// is 1 to 6 and its header-row count fits 32 bits.
pub open spec fn block_readable(b: LayoutBlock) -> bool {
    &&& kind_code(b.kind@) is Some
    &&& (b.bbox matches Some(x) ==> rect_finite(x))
    &&& cells_readable(list_or_empty(b.header))
    &&& forall|i: int| 0 <= i < list_or_empty(b.rows).len() ==> cells_readable((#[trigger] list_or_empty(b.rows)[i])@)
    &&& read_back(b.lang) == opt_view(b.lang)
    &&& (b.kind@ == "heading"@ ==> (b.level matches Some(l) ==> 1 <= l <= 6))
    &&& (b.header_rows matches Some(h) ==> h <= u32::MAX)
}

/// `o` is the block that layout block `b` describes.
pub open spec fn same_block(o: PositionedBlock, b: LayoutBlock) -> bool {
    &&& o.bbox == b.bbox
    &&& match o.block {
        Block::Heading { level, text } => b.kind@ == "heading"@ && level == or_zero(b.level, 1u8) && text@
            == text_of(b.text),
        Block::Paragraph { text, bold, italic } => b.kind@ == "paragraph"@ && text@ == text_of(b.text) && bold
            == b.bold && italic == b.italic,
        Block::ListItem { ordered, marker, level, text, bold, italic } => b.kind@ == "list_item"@ && ordered == (
        b.ordered == Some(true)) && marker@ == text_of(b.marker) && level == or_zero(b.level, 0u8) && text@
            == text_of(b.text) && bold == b.bold && italic == b.italic,
        Block::CodeBlock { lines, lang } => b.kind@ == "code"@ && texts(lines@) == texts(list_or_empty(b.lines))
            && opt_view(lang) == opt_view(b.lang),
        Block::Table { header, rows } => b.kind@ == "table"@ && (header is Some) == (b.header is Some) && (
        header matches Some(h) ==> same_cells(h@, list_or_empty(b.header))) && rows@.len() == list_or_empty(
            b.rows,
        ).len() && forall|i: int|
            0 <= i < rows@.len() ==> same_cells((#[trigger] rows@[i])@, list_or_empty(b.rows)[i]@),
        Block::MergedTable { rows, header_rows } => b.kind@ == "merged_table"@ && header_rows == or_zero(
            b.header_rows,
            0usize,
        ) && rows@.len() == list_or_empty(b.rows).len() && forall|i: int|
            0 <= i < rows@.len() ==> same_span_cells((#[trigger] rows@[i])@, list_or_empty(b.rows)[i]@),
        Block::GridFallback { lines } => b.kind@ == "grid_fallback"@ && texts(lines@) == texts(
            list_or_empty(b.lines),
        ),
        Block::HorizontalRule => b.kind@ == "rule"@,
        Block::Figure { id, format } => b.kind@ == "figure"@ && id@ == text_of(b.id) && format@ == text_of(b.format),
    }
}

proof fn lemma_block_bits(c0: bool, c1: bool, c2: bool, c3: bool, c4: bool, c5: bool, c6: bool, c7: bool, f: u32)
    requires
        f == bit_if(c0, LITEPARSE_BLOCK_FLAG_HAS_LEVEL) | bit_if(c1, LITEPARSE_BLOCK_FLAG_BOLD) | bit_if(
            c2,
            LITEPARSE_BLOCK_FLAG_ITALIC,
        ) | bit_if(c3, LITEPARSE_BLOCK_FLAG_HAS_ORDERED) | bit_if(c4, LITEPARSE_BLOCK_FLAG_ORDERED) | bit_if(
            c5,
            LITEPARSE_BLOCK_FLAG_HAS_BBOX,
        ) | bit_if(c6, LITEPARSE_BLOCK_FLAG_HAS_HEADER_ROWS) | bit_if(c7, LITEPARSE_BLOCK_FLAG_HAS_HEADER),
    ensures
        only_known(f, BLOCK_FLAGS),
        (f & LITEPARSE_BLOCK_FLAG_HAS_LEVEL != 0) == c0,
        (f & LITEPARSE_BLOCK_FLAG_BOLD != 0) == c1,
        (f & LITEPARSE_BLOCK_FLAG_ITALIC != 0) == c2,
        (f & LITEPARSE_BLOCK_FLAG_HAS_ORDERED != 0) == c3,
        (f & LITEPARSE_BLOCK_FLAG_ORDERED != 0) == c4,
        (f & LITEPARSE_BLOCK_FLAG_HAS_BBOX != 0) == c5,
        (f & LITEPARSE_BLOCK_FLAG_HAS_HEADER_ROWS != 0) == c6,
        (f & LITEPARSE_BLOCK_FLAG_HAS_HEADER != 0) == c7,
{
    assert(f & !255u32 == 0 && (f & 1 != 0) == c0 && (f & 2 != 0) == c1 && (f & 4 != 0) == c2 && (f & 8 != 0) == c3
        && (f & 16 != 0) == c4 && (f & 32 != 0) == c5 && (f & 64 != 0) == c6 && (f & 128 != 0) == c7) by (bit_vector)
        requires
            f == bit_if(c0, LITEPARSE_BLOCK_FLAG_HAS_LEVEL) | bit_if(c1, LITEPARSE_BLOCK_FLAG_BOLD) | bit_if(
                c2,
                LITEPARSE_BLOCK_FLAG_ITALIC,
            ) | bit_if(c3, LITEPARSE_BLOCK_FLAG_HAS_ORDERED) | bit_if(c4, LITEPARSE_BLOCK_FLAG_ORDERED) | bit_if(
                c5,
                LITEPARSE_BLOCK_FLAG_HAS_BBOX,
            ) | bit_if(c6, LITEPARSE_BLOCK_FLAG_HAS_HEADER_ROWS) | bit_if(c7, LITEPARSE_BLOCK_FLAG_HAS_HEADER),
    ;
}

/// What the arrays `w` that extend the packing of block `b` onto arrays
/// `v` hold for its record: its strings, lines, header cells and rows.
#[verifier::spinoff_prover]
#[verifier::rlimit(60)]
proof fn lemma_block_layout(v: ContentView, b: LayoutBlock, w: ContentView, what: Seq<char>)
    requires
        extends(block_step(v, b), w),
        fits(block_step(v, b)),
        block_readable(b),
    ensures
        ({
            let r = block_step(v, b).blocks.last();
            &&& str_ok(w.pool, r.text) && text_or_empty(w.pool, r.text) == text_of(b.text)
            &&& str_ok(w.pool, r.marker) && text_or_empty(w.pool, r.marker) == text_of(b.marker)
            &&& str_ok(w.pool, r.lang) && str_text(w.pool, r.lang) == opt_view(b.lang)
            &&& str_ok(w.pool, r.id) && text_or_empty(w.pool, r.id) == text_of(b.id)
            &&& str_ok(w.pool, r.format) && text_or_empty(w.pool, r.format) == text_of(b.format)
            &&& lines_error(w.pool, w.strings, r, what) is None
            &&& texts_of(w.pool, range_of(w.strings, r.line_offset, r.line_count)) == texts(list_or_empty(b.lines))
            &&& cells_error(w.pool, w.cells, r.header_cell_offset, r.header_cell_count, what, "header"@) is None
            &&& cells_hold(
                w.pool,
                range_of(w.cells, r.header_cell_offset, r.header_cell_count),
                list_or_empty(b.header),
            )
            &&& range_fits(r.row_offset, r.row_count, w.rows.len())
            &&& rows_error(w.pool, w.cells, range_of(w.rows, r.row_offset, r.row_count), what) is None
            &&& range_of(w.rows, r.row_offset, r.row_count).len() == list_or_empty(b.rows).len()
            &&& forall|i: int|
                0 <= i < list_or_empty(b.rows).len() ==> cells_hold(
                    w.pool,
                    #[trigger] row_cells(w.cells, range_of(w.rows, r.row_offset, r.row_count), i),
                    list_or_empty(b.rows)[i]@,
                )
        }),
{
    let s = block_step(v, b);
    let r = s.blocks.last();
    let header = list_or_empty(b.header);
    let rows = list_or_empty(b.rows);
    let lines = list_or_empty(b.lines);
    let w1 = cells_step(v, header);
    let w2 = fold(w1, rows, row_stepper());
    let w3 = crate::pack::strings_step(w2, lines);
    lemma_simple_steps_extend();
    lemma_rows_len(w1, rows);
    lemma_fold_extends(w1, rows, row_stepper());
    assert(extends(w3, s) && extends(w2, w3) && extends(v, w1)) by {
        reveal(extends);
    }
    lemma_extends_trans(w2, w3, s);
    lemma_extends_trans(w1, w2, s);
    lemma_extends_trans(w1, s, w);
    lemma_extends_trans(w2, s, w);
    lemma_extends_trans(w3, s, w);
    lemma_extends_fits(w1, s);
    lemma_extends_fits(w2, s);
    lemma_extends_fits(w3, s);
    lemma_extends_layout(w1, w);
    lemma_extends_layout(w3, w);
    lemma_extends_layout(s, w);
    // Own strings.
    let p0 = w3.pool;
    let p1 = p0 + opt_bytes(b.text);
    let p2 = p1 + opt_bytes(b.marker);
    let p3 = p2 + opt_bytes(b.lang);
    let p4 = p3 + opt_bytes(b.id);
    assert(s.pool =~= p4 + opt_bytes(b.format));
    lemma_prefix_drop(p4, opt_bytes(b.format), w.pool);
    lemma_prefix_drop(p3, opt_bytes(b.id), w.pool);
    lemma_prefix_drop(p2, opt_bytes(b.lang), w.pool);
    lemma_prefix_drop(p1, opt_bytes(b.marker), w.pool);
    lemma_read_str(w.pool, p0, b.text);
    lemma_read_str(w.pool, p1, b.marker);
    lemma_read_str(w.pool, p2, b.lang);
    lemma_read_str(w.pool, p3, b.id);
    lemma_read_str(w.pool, p4, b.format);
    // Lines.
    let ls = pooled::<String, LiteParseStr>(w2.pool.len(), lines);
    lemma_pooled_strings(w2.pool, lines, w.pool);
    assert(range_of(w.strings, r.line_offset, r.line_count) =~= ls) by {
        assert forall|k: int| 0 <= k < ls.len() implies #[trigger] w.strings[v.strings.len() + k] == ls[k] by {
            assert(w.strings[v.strings.len() + k] == w3.strings[v.strings.len() + k]);
        }
    }
    // Header cells.
    let hs = pooled::<LayoutCell, LiteParseLayoutCell>(v.pool.len(), header);
    lemma_pooled_cells(v.pool, header, w.pool);
    assert(w.cells.subrange(v.cells.len() as int, (v.cells.len() + header.len()) as int) =~= hs) by {
        assert forall|k: int| 0 <= k < hs.len() implies #[trigger] w.cells[v.cells.len() + k] == hs[k] by {
            assert(w.cells[v.cells.len() + k] == w1.cells[v.cells.len() + k]);
        }
    }
    lemma_cells_checks(w.pool, w.cells, r.header_cell_offset, header, what, "header"@);
    // Rows.
    lemma_rows_packed(w1, rows, w);
    lemma_rows_checks(w1, rows, w, what);
}

/// A layout block packed onto arrays `v`, in arrays `w` that extend what
/// packing it gave: its record passes every check the reader makes, and
/// the block read from it is the one it describes, when readable.
#[verifier::spinoff_prover]
#[verifier::rlimit(60)]
pub proof fn lemma_block_round_trip(v: ContentView, b: LayoutBlock, w: ContentView, what: Seq<char>, o: PositionedBlock)
    requires
        extends(block_step(v, b), w),
        fits(block_step(v, b)),
        block_readable(b),
    ensures
        block_error(w.pool, w.strings, w.cells, w.rows, block_step(v, b).blocks.last(), what) is None,
        block_matches(o, w.pool, w.strings, w.cells, w.rows, block_step(v, b).blocks.last()) ==> same_block(o, b),
{
    let r = block_step(v, b).blocks.last();
    lemma_block_layout(v, b, w, what);
    lemma_block_bits(
        b.level is Some,
        b.bold,
        b.italic,
        b.ordered is Some,
        b.ordered == Some(true),
        b.bbox is Some,
        b.header_rows is Some,
        b.header is Some,
        r.flags,
    );
    if block_matches(o, w.pool, w.strings, w.cells, w.rows, r) {
        let body = range_of(w.rows, r.row_offset, r.row_count);
        let rows = list_or_empty(b.rows);
        match o.block {
            Block::Table { header, rows: rs } => {
                if let Some(h) = header {
                    lemma_cells_read(
                        w.pool,
                        range_of(w.cells, r.header_cell_offset, r.header_cell_count),
                        list_or_empty(b.header),
                        h@,
                        Seq::empty(),
                    );
                }
                assert forall|i: int| 0 <= i < rs@.len() implies same_cells((#[trigger] rs@[i])@, rows[i]@) by {
                    assert(plain_cells_match(rs@[i]@, w.pool, row_cells(w.cells, body, i)));
                    lemma_cells_read(w.pool, row_cells(w.cells, body, i), rows[i]@, rs@[i]@, Seq::empty());
                }
            },
            Block::MergedTable { rows: rs, header_rows } => {
                assert forall|i: int| 0 <= i < rs@.len() implies same_span_cells((#[trigger] rs@[i])@, rows[i]@) by {
                    assert(span_cells_match(rs@[i]@, w.pool, row_cells(w.cells, body, i)));
                    lemma_cells_read(w.pool, row_cells(w.cells, body, i), rows[i]@, Seq::empty(), rs@[i]@);
                }
            },
            _ => {},
        }
    }
}

// Pages.
/// The block arrays `a` a reader is handed are the packed arrays `w`.
pub open spec fn block_arrays_hold(a: BlockArrays, w: ContentView) -> bool {
    a.pool@ == w.pool && a.strings@ == w.strings && a.cells@ == w.cells && a.rows@ == w.rows
}

/// Block `k` of `bs` was packed onto the arrays `w` extends, its record at
/// `offset + k`.
pub open spec fn block_packed_at(v: ContentView, bs: Seq<LayoutBlock>, w: ContentView, offset: nat, k: int) -> bool {
    let s = block_step(fold(v, bs.take(k), block_stepper()), bs[k]);
    &&& w.blocks[offset + k] == s.blocks.last()
    &&& extends(s, w)
    &&& fits(s)
}

/// Where a packed page's blocks stand, and how each was packed.
#[verifier::spinoff_prover]
#[verifier::rlimit(60)]
proof fn lemma_page_blocks_at(v: ContentView, p: PageParts, w: ContentView)
    requires
        extends(page_step(v, p), w),
        fits(w),
    ensures
        ({
            let v7 = content_parts(v, p);
            let r = page_record(v, p);
            let bs = list_or_empty(p.blocks);
            &&& r.block_offset == v7.blocks.len()
            &&& r.block_count == bs.len()
            &&& v7.blocks.len() + bs.len() <= w.blocks.len()
            &&& forall|k: int| 0 <= k < bs.len() ==> #[trigger] block_packed_at(v7, bs, w, v7.blocks.len(), k)
        }),
{
    reveal(page_record);
    let f = block_stepper();
    let v7 = content_parts(v, p);
    let bs = list_or_empty(p.blocks);
    let arr = |x: ContentView| x.blocks;
    let rec = |x: ContentView, b: LayoutBlock| block_step(x, b).blocks.last();
    assert forall|x: ContentView, b: LayoutBlock| #[trigger] arr(f(x, b)) == arr(x).push(rec(x, b)) by {
        lemma_rows_len(cells_step(x, list_or_empty(b.header)), list_or_empty(b.rows));
    }
    lemma_fold_pushes(v7, bs, f, arr, rec);
    let v8 = fold(v7, bs, f);
    let v9 = vectors_step(v8, p.vector_graphics);
    lemma_vectors_to_page(v, p);
    assert(extends(v8, v9)) by {
        reveal(extends);
    }
    lemma_extends_trans(v8, v9, page_step(v, p));
    lemma_extends_trans(v8, page_step(v, p), w);
    lemma_extends_layout(v8, w);
    lemma_layout_steps_extend();
    assert forall|k: int| 0 <= k < bs.len() implies #[trigger] block_packed_at(v7, bs, w, v7.blocks.len(), k) by {
        let x = fold(v7, bs.take(k), f);
        let s = block_step(x, bs[k]);
        assert(arr(v8)[v7.blocks.len() + k] == rec(x, bs[k]));
        lemma_fold_next(v7, bs, f, k);
        lemma_fold_take_extends(v7, bs, f, k + 1);
        lemma_extends_trans(s, v8, w);
        lemma_extends_fits(s, w);
    }
}

/// Reading back the blocks of a packed page: its block range passes every
/// check the reader makes, and the blocks read from it are those the
/// page's layout blocks describe, in order, when those read back (see
/// `block_readable`).
#[verifier::spinoff_prover]
#[verifier::rlimit(60)]
pub proof fn lemma_page_blocks_round_trip(v: ContentView, p: PageParts, w: ContentView, a: BlockArrays, os: Seq<PositionedBlock>)
    requires
        extends(page_step(v, p), w),
        fits(w),
        block_arrays_hold(a, w),
        forall|k: int| 0 <= k < list_or_empty(p.blocks).len() ==> block_readable(#[trigger] list_or_empty(p.blocks)[k]),
    ensures
        ({
            let r = page_record(v, p);
            &&& blocks_error(a, w.blocks, r.block_offset, r.block_count) is None
            &&& blocks_match(os, a, w.blocks, r.block_offset, r.block_count) ==> {
                &&& os.len() == list_or_empty(p.blocks).len()
                &&& forall|k: int| 0 <= k < os.len() ==> same_block(#[trigger] os[k], list_or_empty(p.blocks)[k])
            }
        }),
{
    let r = page_record(v, p);
    let v7 = content_parts(v, p);
    let bs = list_or_empty(p.blocks);
    let f = block_stepper();
    lemma_page_blocks_at(v, p, w);
    let rs = range_of(w.blocks, r.block_offset, r.block_count);
    assert(rs.len() == bs.len());
    let ok = block_ok(a, rs, r.block_offset);
    assert forall|k: int| 0 <= k < rs.len() implies #[trigger] ok(k) by {
        assert(block_packed_at(v7, bs, w, v7.blocks.len(), k));
        assert(rs[k] == w.blocks[r.block_offset + k]);
        lemma_block_round_trip(
            fold(v7, bs.take(k), f),
            bs[k],
            w,
            indexed("blocks"@, (r.block_offset + k) as nat),
            vstd::pervasive::arbitrary(),
        );
    }
    lemma_first_bad(ok, rs.len() as int);
    if blocks_match(os, a, w.blocks, r.block_offset, r.block_count) {
        assert forall|k: int| 0 <= k < os.len() implies same_block(#[trigger] os[k], bs[k]) by {
            assert(block_packed_at(v7, bs, w, v7.blocks.len(), k));
            assert(rs[k] == w.blocks[r.block_offset + k]);
            assert(block_matches(os[k], w.pool, w.strings, w.cells, w.rows, rs[k]));
            lemma_block_round_trip(fold(v7, bs.take(k), f), bs[k], w, Seq::empty(), os[k]);
        }
    }
}

} // verus!
