//! Reading caller-supplied layout blocks back out of flat records: every
//! range, flag word, string and kind is checked, and the first failure is
//! reported under the record's place.

use vstd::prelude::*;
use vstd::string::StringExecFns;
use vstd::utf8::{valid_utf8, decode_utf8};
use crate::check::{
    LiteParseRect, RawView, flagged_rect, known_flags, only_known, optional_view_str,
    range_fits, range_message, rect_finite, utf8_error_text,
};
use crate::pool::LiteParseStr;
use crate::status::{FfiError, FfiResult, LITEPARSE_STATUS_INVALID_ARGUMENT};
use crate::text::{decimal, label_of, push_decimal, str_eq};

verus! {

pub const LITEPARSE_BLOCK_HEADING: u32 = 0;
pub const LITEPARSE_BLOCK_PARAGRAPH: u32 = 1;
pub const LITEPARSE_BLOCK_LIST_ITEM: u32 = 2;
pub const LITEPARSE_BLOCK_CODE: u32 = 3;
pub const LITEPARSE_BLOCK_TABLE: u32 = 4;
pub const LITEPARSE_BLOCK_MERGED_TABLE: u32 = 5;
pub const LITEPARSE_BLOCK_GRID_FALLBACK: u32 = 6;
pub const LITEPARSE_BLOCK_RULE: u32 = 7;
pub const LITEPARSE_BLOCK_FIGURE: u32 = 8;
/// A kind this binding does not know; rejected on input.
pub const LITEPARSE_BLOCK_UNKNOWN: u32 = 9;

/// The code a core block kind name packs to.
pub open spec fn kind_code(kind: Seq<char>) -> Option<u32> {
    if kind == "heading"@ {
        Some(LITEPARSE_BLOCK_HEADING)
    } else if kind == "paragraph"@ {
        Some(LITEPARSE_BLOCK_PARAGRAPH)
    } else if kind == "list_item"@ {
        Some(LITEPARSE_BLOCK_LIST_ITEM)
    } else if kind == "code"@ {
        Some(LITEPARSE_BLOCK_CODE)
    } else if kind == "table"@ {
        Some(LITEPARSE_BLOCK_TABLE)
    } else if kind == "merged_table"@ {
        Some(LITEPARSE_BLOCK_MERGED_TABLE)
    } else if kind == "grid_fallback"@ {
        Some(LITEPARSE_BLOCK_GRID_FALLBACK)
    } else if kind == "rule"@ {
        Some(LITEPARSE_BLOCK_RULE)
    } else if kind == "figure"@ {
        Some(LITEPARSE_BLOCK_FIGURE)
    } else {
        None
    }
}

/// The code of a block kind name; `None` for a name this binding does not
/// know.
pub fn block_kind(kind: &str) -> (r: Option<u32>)
    ensures
        r == kind_code(kind@),
{
    if str_eq(kind, "heading") {
        Some(LITEPARSE_BLOCK_HEADING)
    } else if str_eq(kind, "paragraph") {
        Some(LITEPARSE_BLOCK_PARAGRAPH)
    } else if str_eq(kind, "list_item") {
        Some(LITEPARSE_BLOCK_LIST_ITEM)
    } else if str_eq(kind, "code") {
        Some(LITEPARSE_BLOCK_CODE)
    } else if str_eq(kind, "table") {
        Some(LITEPARSE_BLOCK_TABLE)
    } else if str_eq(kind, "merged_table") {
        Some(LITEPARSE_BLOCK_MERGED_TABLE)
    } else if str_eq(kind, "grid_fallback") {
        Some(LITEPARSE_BLOCK_GRID_FALLBACK)
    } else if str_eq(kind, "rule") {
        Some(LITEPARSE_BLOCK_RULE)
    } else if str_eq(kind, "figure") {
        Some(LITEPARSE_BLOCK_FIGURE)
    } else {
        None
    }
}

pub const LITEPARSE_BLOCK_FLAG_HAS_LEVEL: u32 = 1;
pub const LITEPARSE_BLOCK_FLAG_BOLD: u32 = 2;
pub const LITEPARSE_BLOCK_FLAG_ITALIC: u32 = 4;
pub const LITEPARSE_BLOCK_FLAG_HAS_ORDERED: u32 = 8;
pub const LITEPARSE_BLOCK_FLAG_ORDERED: u32 = 16;
pub const LITEPARSE_BLOCK_FLAG_HAS_BBOX: u32 = 32;
pub const LITEPARSE_BLOCK_FLAG_HAS_HEADER_ROWS: u32 = 64;
pub const LITEPARSE_BLOCK_FLAG_HAS_HEADER: u32 = 128;
/// Every `LITEPARSE_BLOCK_FLAG_*` bit.
pub const BLOCK_FLAGS: u32 = 255;

pub const LITEPARSE_CELL_FLAG_HAS_BBOX: u32 = 1;
/// Every `LITEPARSE_CELL_FLAG_*` bit.
pub const CELL_FLAGS: u32 = 1;

/// One table cell; `colspan`/`rowspan` of 0 or 1 mean a single cell.
#[derive(Clone, Copy, Debug, PartialEq, Eq, Structural)]
pub struct LiteParseLayoutCell {
    pub text: LiteParseStr,
    pub bbox: LiteParseRect,
    pub colspan: u32,
    pub rowspan: u32,
    pub flags: u32,
}

/// A table row: a range of cells.
#[derive(Clone, Copy, Debug, PartialEq, Eq, Structural)]
pub struct LiteParseLayoutRow {
    pub cell_offset: u32,
    pub cell_count: u32,
}

/// One classified layout block.
#[derive(Clone, Copy, Debug, PartialEq, Eq, Structural)]
pub struct LiteParseLayoutBlock {
    pub text: LiteParseStr,
    pub marker: LiteParseStr,
    pub lang: LiteParseStr,
    pub id: LiteParseStr,
    pub format: LiteParseStr,
    pub bbox: LiteParseRect,
    /// One of the `LITEPARSE_BLOCK_*` kinds.
    pub kind: u32,
    pub flags: u32,
    /// Heading level (1-6), or list nesting depth.
    pub level: u32,
    pub line_offset: u32,
    pub line_count: u32,
    pub header_cell_offset: u32,
    pub header_cell_count: u32,
    pub row_offset: u32,
    pub row_count: u32,
    pub header_rows: u32,
}

/// The arrays blocks read from: the pool and the string, cell and row
/// records.
pub struct BlockArrays<'a> {
    pub pool: &'a [u8],
    pub strings: &'a [LiteParseStr],
    pub cells: &'a [LiteParseLayoutCell],
    pub rows: &'a [LiteParseLayoutRow],
}

// Strings.
/// Whether string `s` reads from `pool`: absent (length zero), or a range
/// inside the pool holding UTF-8.
pub open spec fn str_ok(pool: Seq<u8>, s: LiteParseStr) -> bool {
    s.len == 0 || (range_fits(s.offset, s.len, pool.len()) && valid_utf8(
        pool.subrange(s.offset as int, s.offset + s.len),
    ))
}

/// The text of a string that reads; `None` when absent.
pub open spec fn str_text(pool: Seq<u8>, s: LiteParseStr) -> Option<Seq<char>> {
    if s.len == 0 {
        None
    } else {
        Some(decode_utf8(pool.subrange(s.offset as int, s.offset + s.len)))
    }
}

pub open spec fn text_or_empty(pool: Seq<u8>, s: LiteParseStr) -> Seq<char> {
    match str_text(pool, s) {
        Some(t) => t,
        None => Seq::empty(),
    }
}

/// The message for a string that does not read.
pub open spec fn str_error(pool: Seq<u8>, s: LiteParseStr, where_: Seq<char>, field: Seq<char>) -> Seq<
    char,
> {
    if !range_fits(s.offset, s.len, pool.len()) {
        range_message(where_, field, s.offset, s.len, pool.len())
    } else {
        where_ + "."@ + field + " is not valid UTF-8: "@ + utf8_error_text(
            pool.subrange(s.offset as int, s.offset + s.len),
        )
    }
}

pub open spec fn opt_view(s: Option<String>) -> Option<Seq<char>> {
    match s {
        Some(t) => Some(t@),
        None => None,
    }
}

/// Read an optional string field of a record.
pub fn str_field(pool: &[u8], s: LiteParseStr, where_: &str, field: &str) -> (r: FfiResult<
    Option<String>,
>)
    ensures
        r is Ok <==> str_ok(pool@, s),
        r matches Ok(v) ==> opt_view(v) == str_text(pool@, s),
        r matches Err(e) ==> e.status == LITEPARSE_STATUS_INVALID_ARGUMENT && e.message@
            == str_error(pool@, s, where_@, field@),
{
    if s.len == 0 {
        return Ok(None);
    }
    let bytes = match crate::check::sub(pool, s.offset, s.len, where_, field) {
        Ok(b) => b,
        Err(e) => return Err(e),
    };
    let mut name = String::from_str(where_);
    name.append(".");
    name.append(field);
    match optional_view_str(RawView::Bytes(bytes), name.as_str()) {
        Ok(Some(text)) => Ok(Some(text)),
        Ok(None) => Ok(None),
        Err(e) => Err(e),
    }
}

/// Read a string field that defaults to empty.
pub fn text_field(pool: &[u8], s: LiteParseStr, where_: &str, field: &str) -> (r: FfiResult<String>)
    ensures
        r is Ok <==> str_ok(pool@, s),
        r matches Ok(v) ==> v@ == text_or_empty(pool@, s),
        r matches Err(e) ==> e.status == LITEPARSE_STATUS_INVALID_ARGUMENT && e.message@
            == str_error(pool@, s, where_@, field@),
{
    match str_field(pool, s, where_, field) {
        Ok(Some(t)) => Ok(t),
        Ok(None) => Ok(String::new()),
        Err(e) => Err(e),
    }
}

/// Whether every string of `ss` reads.
pub open spec fn strs_ok(pool: Seq<u8>, ss: Seq<LiteParseStr>) -> bool {
    forall|i: int| 0 <= i < ss.len() ==> str_ok(pool, #[trigger] ss[i])
}

/// Index of the first string of `ss` that does not read, or `ss.len()`.
pub open spec fn first_bad_str(pool: Seq<u8>, ss: Seq<LiteParseStr>) -> int
    decreases ss.len(),
{
    if ss.len() == 0 {
        0
    } else if !str_ok(pool, ss[0]) {
        0
    } else {
        1 + first_bad_str(pool, ss.drop_first())
    }
}

proof fn lemma_first_bad_str(pool: Seq<u8>, ss: Seq<LiteParseStr>)
    ensures
        0 <= first_bad_str(pool, ss) <= ss.len(),
        forall|i: int| 0 <= i < first_bad_str(pool, ss) ==> str_ok(pool, #[trigger] ss[i]),
        first_bad_str(pool, ss) < ss.len() ==> !str_ok(pool, ss[first_bad_str(pool, ss)]),
        (first_bad_str(pool, ss) == ss.len()) == strs_ok(pool, ss),
    decreases ss.len(),
{
    if ss.len() > 0 && str_ok(pool, ss[0]) {
        lemma_first_bad_str(pool, ss.drop_first());
        assert forall|i: int| 0 <= i < first_bad_str(pool, ss) implies str_ok(
            pool,
            #[trigger] ss[i],
        ) by {
            if i > 0 {
                assert(ss[i] == ss.drop_first()[i - 1]);
            }
        }
        if first_bad_str(pool, ss) < ss.len() {
            assert(ss[first_bad_str(pool, ss)] == ss.drop_first()[first_bad_str(pool, ss) - 1]);
        }
        if strs_ok(pool, ss) {
            assert forall|i: int| 0 <= i < ss.drop_first().len() implies str_ok(
                pool,
                #[trigger] ss.drop_first()[i],
            ) by {
                assert(ss.drop_first()[i] == ss[i + 1]);
            }
        }
    }
}

/// The texts of `ss`, absent ones empty.
pub open spec fn texts_of(pool: Seq<u8>, ss: Seq<LiteParseStr>) -> Seq<Seq<char>> {
    ss.map_values(|s: LiteParseStr| text_or_empty(pool, s))
}

/// Read `count` strings from `offset` of the string records.
pub fn copy_strings(
    pool: &[u8],
    strings: &[LiteParseStr],
    offset: u32,
    count: u32,
    where_: &str,
    field: &str,
) -> (r: FfiResult<Vec<String>>)
    ensures
        r is Ok <==> range_fits(offset, count, strings@.len()) && strs_ok(
            pool@,
            range_of(strings@, offset, count),
        ),
        r matches Ok(v) ==> v@.map_values(|s: String| s@) == texts_of(
            pool@,
            range_of(strings@, offset, count),
        ),
        r matches Err(e) ==> e.status == LITEPARSE_STATUS_INVALID_ARGUMENT && e.message@ == (
        if !range_fits(offset, count, strings@.len()) {
            range_message(where_@, field@, offset, count, strings@.len())
        } else {
            str_error(
                pool@,
                range_of(strings@, offset, count)[first_bad_str(
                    pool@,
                    range_of(strings@, offset, count),
                )],
                where_@,
                field@,
            )
        }),
{
    let range = match crate::check::sub(strings, offset, count, where_, field) {
        Ok(s) => s,
        Err(e) => return Err(e),
    };
    assert(range@ == range_of(strings@, offset, count));
    proof {
        lemma_first_bad_str(pool@, range@);
    }
    let mut out: Vec<String> = Vec::new();
    let mut i: usize = 0;
    while i < range.len()
        invariant
            0 <= i <= range@.len(),
            range@ == range_of(strings@, offset, count),
            range_fits(offset, count, strings@.len()),
            forall|k: int| 0 <= k < i ==> str_ok(pool@, #[trigger] range@[k]),
            i <= first_bad_str(pool@, range@),
            out@.map_values(|s: String| s@) == texts_of(pool@, range@.take(i as int)),
        decreases range@.len() - i,
    {
        proof {
            lemma_first_bad_str(pool@, range@);
        }
        let text = match text_field(pool, range[i], where_, field) {
            Ok(t) => t,
            Err(e) => {
                assert(first_bad_str(pool@, range@) == i);
                return Err(e);
            },
        };
        let ghost before = out@;
        out.push(text);
        proof {
            assert(out@.map_values(|s: String| s@) =~= before.map_values(|s: String| s@).push(
                text@,
            ));
            assert(texts_of(pool@, range@.take(i as int + 1)) =~= texts_of(
                pool@,
                range@.take(i as int),
            ).push(text_or_empty(pool@, range@[i as int])));
        }
        i = i + 1;
    }
    assert(range@.take(range@.len() as int) =~= range@);
    Ok(out)
}

/// The records a range names (empty for a zero count).
pub open spec fn range_of<T>(all: Seq<T>, offset: u32, count: u32) -> Seq<T> {
    if count == 0 {
        Seq::empty()
    } else {
        all.subrange(offset as int, offset + count)
    }
}

} // verus!

verus! {

/// Index of the first element of `s` failing `ok`, or `s.len()`.
pub open spec fn first_fail<T>(s: Seq<T>, ok: spec_fn(T) -> bool) -> int
    decreases s.len(),
{
    if s.len() == 0 {
        0
    } else if !ok(s[0]) {
        0
    } else {
        1 + first_fail(s.drop_first(), ok)
    }
}

pub proof fn lemma_first_fail<T>(s: Seq<T>, ok: spec_fn(T) -> bool)
    ensures
        0 <= first_fail(s, ok) <= s.len(),
        forall|i: int| 0 <= i < first_fail(s, ok) ==> ok(#[trigger] s[i]),
        first_fail(s, ok) < s.len() ==> !ok(s[first_fail(s, ok)]),
        (first_fail(s, ok) == s.len()) == (forall|i: int| 0 <= i < s.len() ==> ok(#[trigger] s[i])),
    decreases s.len(),
{
    if s.len() > 0 && ok(s[0]) {
        lemma_first_fail(s.drop_first(), ok);
        assert forall|i: int| 0 <= i < first_fail(s, ok) implies ok(#[trigger] s[i]) by {
            if i > 0 {
                assert(s[i] == s.drop_first()[i - 1]);
            }
        }
        if first_fail(s, ok) < s.len() {
            assert(s[first_fail(s, ok)] == s.drop_first()[first_fail(s, ok) - 1]);
        }
        if forall|i: int| 0 <= i < s.len() ==> ok(#[trigger] s[i]) {
            assert forall|i: int| 0 <= i < s.drop_first().len() implies ok(
                #[trigger] s.drop_first()[i],
            ) by {
                assert(s.drop_first()[i] == s[i + 1]);
            }
        }
    }
}

/// A table cell as read from its record.
pub struct OwnedCell {
    pub text: String,
    pub bbox: Option<LiteParseRect>,
    pub colspan: u16,
    pub rowspan: u16,
}

/// The first failing check of a cell record, if any.
pub open spec fn cell_error(
    pool: Seq<u8>,
    c: LiteParseLayoutCell,
    where_: Seq<char>,
    field: Seq<char>,
) -> Option<Seq<char>> {
    if !only_known(c.flags, CELL_FLAGS) {
        Some(label_of(where_, field) + ".flags contains unknown bits"@)
    } else if !str_ok(pool, c.text) {
        Some(str_error(pool, c.text, where_, field))
    } else if c.flags & LITEPARSE_CELL_FLAG_HAS_BBOX != 0 && !rect_finite(c.bbox) {
        Some(label_of(where_, field) + " must be finite"@)
    } else if c.colspan > 0xffff {
        Some(where_ + "."@ + field + " colspan must fit in u16"@)
    } else if c.rowspan > 0xffff {
        Some(where_ + "."@ + field + " rowspan must fit in u16"@)
    } else {
        None
    }
}

pub open spec fn flagged<T>(flags: u32, bit: u32, v: T) -> Option<T> {
    if flags & bit != 0 {
        Some(v)
    } else {
        None
    }
}

/// `o` is what cell record `c` holds.
pub open spec fn cell_matches(o: OwnedCell, pool: Seq<u8>, c: LiteParseLayoutCell) -> bool {
    &&& o.text@ == text_or_empty(pool, c.text)
    &&& o.bbox == flagged(c.flags, LITEPARSE_CELL_FLAG_HAS_BBOX, c.bbox)
    &&& o.colspan == c.colspan
    &&& o.rowspan == c.rowspan
}

pub open spec fn cells_match(os: Seq<OwnedCell>, pool: Seq<u8>, cs: Seq<LiteParseLayoutCell>) -> bool {
    os.len() == cs.len() && forall|i: int| 0 <= i < cs.len() ==> cell_matches(#[trigger] os[i], pool, cs[i])
}

/// The first failure reading `count` cells from `offset`, if any.
pub open spec fn cells_error(
    pool: Seq<u8>,
    cells: Seq<LiteParseLayoutCell>,
    offset: u32,
    count: u32,
    where_: Seq<char>,
    field: Seq<char>,
) -> Option<Seq<char>> {
    if !range_fits(offset, count, cells.len()) {
        Some(range_message(where_, field, offset, count, cells.len()))
    } else {
        let r = range_of(cells, offset, count);
        let i = first_fail(r, |c: LiteParseLayoutCell| cell_error(pool, c, where_, field) is None);
        if i < r.len() {
            cell_error(pool, r[i], where_, field)
        } else {
            None
        }
    }
}

fn copy_cell(pool: &[u8], cell: &LiteParseLayoutCell, where_: &str, field: &str) -> (r: FfiResult<
    OwnedCell,
>)
    ensures
        r is Ok <==> cell_error(pool@, *cell, where_@, field@) is None,
        r matches Ok(o) ==> cell_matches(o, pool@, *cell),
        r matches Err(e) ==> e.status == LITEPARSE_STATUS_INVALID_ARGUMENT && Some(e.message@)
            == cell_error(pool@, *cell, where_@, field@),
{
    match known_flags(cell.flags, CELL_FLAGS, where_, field) {
        Ok(()) => {},
        Err(e) => return Err(e),
    }
    let text = match text_field(pool, cell.text, where_, field) {
        Ok(t) => t,
        Err(e) => return Err(e),
    };
    let bbox = match flagged_rect(cell.flags, LITEPARSE_CELL_FLAG_HAS_BBOX, &cell.bbox, where_, field) {
        Ok(b) => b,
        Err(e) => return Err(e),
    };
    if cell.colspan > 0xffff {
        let mut message = String::from_str(where_);
        message.append(".");
        message.append(field);
        message.append(" colspan must fit in u16");
        return Err(FfiError::invalid_argument(message));
    }
    if cell.rowspan > 0xffff {
        let mut message = String::from_str(where_);
        message.append(".");
        message.append(field);
        message.append(" rowspan must fit in u16");
        return Err(FfiError::invalid_argument(message));
    }
    Ok(OwnedCell { text, bbox, colspan: cell.colspan as u16, rowspan: cell.rowspan as u16 })
}

/// Read `count` cells from `offset` of the cell records.
pub fn copy_cells(
    pool: &[u8],
    cells: &[LiteParseLayoutCell],
    offset: u32,
    count: u32,
    where_: &str,
    field: &str,
) -> (r: FfiResult<Vec<OwnedCell>>)
    ensures
        r is Ok <==> cells_error(pool@, cells@, offset, count, where_@, field@) is None,
        r matches Ok(v) ==> cells_match(v@, pool@, range_of(cells@, offset, count)),
        r matches Err(e) ==> e.status == LITEPARSE_STATUS_INVALID_ARGUMENT && Some(e.message@)
            == cells_error(pool@, cells@, offset, count, where_@, field@),
{
    let range = match crate::check::sub(cells, offset, count, where_, field) {
        Ok(s) => s,
        Err(e) => return Err(e),
    };
    let ghost ok = |c: LiteParseLayoutCell| cell_error(pool@, c, where_@, field@) is None;
    let mut out: Vec<OwnedCell> = Vec::new();
    let mut i: usize = 0;
    while i < range.len()
        invariant
            0 <= i <= range@.len(),
            range@ == range_of(cells@, offset, count),
            range_fits(offset, count, cells@.len()),
            ok == (|c: LiteParseLayoutCell| cell_error(pool@, c, where_@, field@) is None),
            forall|k: int| 0 <= k < i ==> ok(#[trigger] range@[k]),
            out@.len() == i,
            forall|k: int| 0 <= k < i ==> cell_matches(#[trigger] out@[k], pool@, range@[k]),
        decreases range@.len() - i,
    {
        proof {
            lemma_first_fail(range@, ok);
        }
        let cell = match copy_cell(pool, &range[i], where_, field) {
            Ok(c) => c,
            Err(e) => {
                assert(first_fail(range@, ok) == i);
                return Err(e);
            },
        };
        out.push(cell);
        i = i + 1;
    }
    proof {
        lemma_first_fail(range@, ok);
    }
    Ok(out)
}

} // verus!

verus! {

/// A plain table cell.
pub struct Cell {
    pub text: String,
    pub bbox: Option<LiteParseRect>,
}

/// A merged-table cell with its spans.
pub struct SpanCell {
    pub text: String,
    pub bbox: Option<LiteParseRect>,
    pub colspan: u16,
    pub rowspan: u16,
}

/// A layout block of Markdown structure.
#[allow(inconsistent_fields)]
pub enum Block {
    Heading { level: u8, text: String },
    Paragraph { text: String, bold: bool, italic: bool },
    ListItem { ordered: bool, marker: String, level: u8, text: String, bold: bool, italic: bool },
    CodeBlock { lines: Vec<String>, lang: Option<String> },
    Table { header: Option<Vec<Cell>>, rows: Vec<Vec<Cell>> },
    MergedTable { rows: Vec<Vec<SpanCell>>, header_rows: usize },
    GridFallback { lines: Vec<String> },
    HorizontalRule,
    Figure { id: String, format: String },
}

/// A block and its optional bounds.
pub struct PositionedBlock {
    pub block: Block,
    pub bbox: Option<LiteParseRect>,
}

pub open spec fn or_default<T>(o: Option<T>, d: T) -> T {
    match o {
        Some(v) => v,
        None => d,
    }
}

/// The first failing check of the rows of a block, if any.
pub open spec fn rows_error(
    pool: Seq<u8>,
    cells: Seq<LiteParseLayoutCell>,
    rows: Seq<LiteParseLayoutRow>,
    what: Seq<char>,
) -> Option<Seq<char>> {
    let i = first_fail(
        rows,
        |r: LiteParseLayoutRow| cells_error(pool, cells, r.cell_offset, r.cell_count, what, "rows"@)
            is None,
    );
    if i < rows.len() {
        cells_error(pool, cells, rows[i].cell_offset, rows[i].cell_count, what, "rows"@)
    } else {
        None
    }
}

pub open spec fn lines_error(
    pool: Seq<u8>,
    strings: Seq<LiteParseStr>,
    b: LiteParseLayoutBlock,
    what: Seq<char>,
) -> Option<Seq<char>> {
    if !range_fits(b.line_offset, b.line_count, strings.len()) {
        Some(range_message(what, "lines"@, b.line_offset, b.line_count, strings.len()))
    } else {
        let r = range_of(strings, b.line_offset, b.line_count);
        if !strs_ok(pool, r) {
            Some(str_error(pool, r[first_bad_str(pool, r)], what, "lines"@))
        } else {
            None
        }
    }
}

pub open spec fn kind_error(b: LiteParseLayoutBlock, what: Seq<char>) -> Option<Seq<char>> {
    let level = flagged(b.flags, LITEPARSE_BLOCK_FLAG_HAS_LEVEL, b.level);
    if b.kind == LITEPARSE_BLOCK_HEADING {
        let l = or_default(level, 1u32);
        if !(1 <= l <= 6) {
            Some(what + " heading level must be 1-6"@)
        } else {
            None
        }
    } else if b.kind == LITEPARSE_BLOCK_LIST_ITEM {
        if or_default(level, 0u32) > 255 {
            Some(what + " list level must fit in u8"@)
        } else {
            None
        }
    } else if b.kind <= LITEPARSE_BLOCK_FIGURE {
        None
    } else {
        Some(what + " has unknown kind "@ + decimal(b.kind as nat))
    }
}

/// The first failing check of a block record, in the order they are made.
pub open spec fn block_error(
    pool: Seq<u8>,
    strings: Seq<LiteParseStr>,
    cells: Seq<LiteParseLayoutCell>,
    rows: Seq<LiteParseLayoutRow>,
    b: LiteParseLayoutBlock,
    what: Seq<char>,
) -> Option<Seq<char>> {
    if !only_known(b.flags, BLOCK_FLAGS) {
        Some(label_of(what, ""@) + ".flags contains unknown bits"@)
    } else if !str_ok(pool, b.text) {
        Some(str_error(pool, b.text, what, "text"@))
    } else if !str_ok(pool, b.marker) {
        Some(str_error(pool, b.marker, what, "marker"@))
    } else if !str_ok(pool, b.lang) {
        Some(str_error(pool, b.lang, what, "lang"@))
    } else if !str_ok(pool, b.id) {
        Some(str_error(pool, b.id, what, "id"@))
    } else if !str_ok(pool, b.format) {
        Some(str_error(pool, b.format, what, "format"@))
    } else if b.flags & LITEPARSE_BLOCK_FLAG_HAS_BBOX != 0 && !rect_finite(b.bbox) {
        Some(label_of(what, "bbox"@) + " must be finite"@)
    } else if lines_error(pool, strings, b, what) is Some {
        lines_error(pool, strings, b, what)
    } else if cells_error(pool, cells, b.header_cell_offset, b.header_cell_count, what, "header"@) is Some {
        cells_error(pool, cells, b.header_cell_offset, b.header_cell_count, what, "header"@)
    } else if !range_fits(b.row_offset, b.row_count, rows.len()) {
        Some(range_message(what, "rows"@, b.row_offset, b.row_count, rows.len()))
    } else if rows_error(pool, cells, range_of(rows, b.row_offset, b.row_count), what) is Some {
        rows_error(pool, cells, range_of(rows, b.row_offset, b.row_count), what)
    } else {
        kind_error(b, what)
    }
}

pub open spec fn plain_cells_match(v: Seq<Cell>, pool: Seq<u8>, cs: Seq<LiteParseLayoutCell>) -> bool {
    v.len() == cs.len() && forall|i: int|
        0 <= i < cs.len() ==> (#[trigger] v[i]).text@ == text_or_empty(pool, cs[i].text) && v[i].bbox
            == flagged(cs[i].flags, LITEPARSE_CELL_FLAG_HAS_BBOX, cs[i].bbox)
}

pub open spec fn span_cells_match(v: Seq<SpanCell>, pool: Seq<u8>, cs: Seq<LiteParseLayoutCell>) -> bool {
    v.len() == cs.len() && forall|i: int|
        0 <= i < cs.len() ==> (#[trigger] v[i]).text@ == text_or_empty(pool, cs[i].text) && v[i].bbox
            == flagged(cs[i].flags, LITEPARSE_CELL_FLAG_HAS_BBOX, cs[i].bbox) && v[i].colspan
            == cs[i].colspan && v[i].rowspan == cs[i].rowspan
}

/// The cells of row `i` of a row range.
pub open spec fn row_cells(cells: Seq<LiteParseLayoutCell>, rows: Seq<LiteParseLayoutRow>, i: int) -> Seq<
    LiteParseLayoutCell,
> {
    range_of(cells, rows[i].cell_offset, rows[i].cell_count)
}

/// `pb` is what block record `b` holds.
pub open spec fn block_matches(
    pb: PositionedBlock,
    pool: Seq<u8>,
    strings: Seq<LiteParseStr>,
    cells: Seq<LiteParseLayoutCell>,
    rows: Seq<LiteParseLayoutRow>,
    b: LiteParseLayoutBlock,
) -> bool {
    let level = flagged(b.flags, LITEPARSE_BLOCK_FLAG_HAS_LEVEL, b.level);
    let bold = b.flags & LITEPARSE_BLOCK_FLAG_BOLD != 0;
    let italic = b.flags & LITEPARSE_BLOCK_FLAG_ITALIC != 0;
    let lines = texts_of(pool, range_of(strings, b.line_offset, b.line_count));
    let body = range_of(rows, b.row_offset, b.row_count);
    &&& pb.bbox == flagged(b.flags, LITEPARSE_BLOCK_FLAG_HAS_BBOX, b.bbox)
    &&& match pb.block {
        Block::Heading { level: l, text } => b.kind == LITEPARSE_BLOCK_HEADING && l == or_default(
            level,
            1u32,
        ) && text@ == text_or_empty(pool, b.text),
        Block::Paragraph { text, bold: bo, italic: it } => b.kind == LITEPARSE_BLOCK_PARAGRAPH
            && text@ == text_or_empty(pool, b.text) && bo == bold && it == italic,
        Block::ListItem { ordered, marker, level: l, text, bold: bo, italic: it } => b.kind
            == LITEPARSE_BLOCK_LIST_ITEM && ordered == (b.flags & LITEPARSE_BLOCK_FLAG_HAS_ORDERED
            != 0 && b.flags & LITEPARSE_BLOCK_FLAG_ORDERED != 0) && marker@ == text_or_empty(
            pool,
            b.marker,
        ) && l == or_default(level, 0u32) && text@ == text_or_empty(pool, b.text) && bo == bold
            && it == italic,
        Block::CodeBlock { lines: ls, lang } => b.kind == LITEPARSE_BLOCK_CODE && ls@.map_values(
            |s: String| s@,
        ) == lines && opt_view(lang) == str_text(pool, b.lang),
        Block::Table { header, rows: rs } => b.kind == LITEPARSE_BLOCK_TABLE && (header is Some
            == (b.flags & LITEPARSE_BLOCK_FLAG_HAS_HEADER != 0)) && (header matches Some(h)
            ==> plain_cells_match(
            h@,
            pool,
            range_of(cells, b.header_cell_offset, b.header_cell_count),
        )) && rs@.len() == body.len() && forall|i: int|
            0 <= i < body.len() ==> plain_cells_match(
                (#[trigger] rs@[i])@,
                pool,
                row_cells(cells, body, i),
            ),
        Block::MergedTable { rows: rs, header_rows } => b.kind == LITEPARSE_BLOCK_MERGED_TABLE
            && header_rows == (if b.flags & LITEPARSE_BLOCK_FLAG_HAS_HEADER_ROWS != 0 {
            b.header_rows
        } else {
            0
        }) && rs@.len() == body.len() && forall|i: int|
            0 <= i < body.len() ==> span_cells_match(
                (#[trigger] rs@[i])@,
                pool,
                row_cells(cells, body, i),
            ),
        Block::GridFallback { lines: ls } => b.kind == LITEPARSE_BLOCK_GRID_FALLBACK
            && ls@.map_values(|s: String| s@) == lines,
        Block::HorizontalRule => b.kind == LITEPARSE_BLOCK_RULE,
        Block::Figure { id, format } => b.kind == LITEPARSE_BLOCK_FIGURE && id@ == text_or_empty(
            pool,
            b.id,
        ) && format@ == text_or_empty(pool, b.format),
    }
}

fn plain_cells(v: &Vec<OwnedCell>, ghost_pool: Ghost<Seq<u8>>, ghost_cells: Ghost<Seq<LiteParseLayoutCell>>) -> (r: Vec<Cell>)
    requires
        cells_match(v@, ghost_pool@, ghost_cells@),
    ensures
        plain_cells_match(r@, ghost_pool@, ghost_cells@),
{
    let mut out: Vec<Cell> = Vec::new();
    let mut i: usize = 0;
    while i < v.len()
        invariant
            0 <= i <= v@.len(),
            cells_match(v@, ghost_pool@, ghost_cells@),
            out@.len() == i,
            forall|k: int|
                0 <= k < i ==> (#[trigger] out@[k]).text@ == v@[k].text@ && out@[k].bbox
                    == v@[k].bbox,
        decreases v@.len() - i,
    {
        let c = &v[i];
        out.push(Cell { text: c.text.clone(), bbox: c.bbox });
        i = i + 1;
    }
    out
}

fn span_cells(v: &Vec<OwnedCell>, ghost_pool: Ghost<Seq<u8>>, ghost_cells: Ghost<Seq<LiteParseLayoutCell>>) -> (r: Vec<SpanCell>)
    requires
        cells_match(v@, ghost_pool@, ghost_cells@),
    ensures
        span_cells_match(r@, ghost_pool@, ghost_cells@),
{
    let mut out: Vec<SpanCell> = Vec::new();
    let mut i: usize = 0;
    while i < v.len()
        invariant
            0 <= i <= v@.len(),
            cells_match(v@, ghost_pool@, ghost_cells@),
            out@.len() == i,
            forall|k: int|
                0 <= k < i ==> (#[trigger] out@[k]).text@ == v@[k].text@ && out@[k].bbox
                    == v@[k].bbox && out@[k].colspan == v@[k].colspan && out@[k].rowspan
                    == v@[k].rowspan,
        decreases v@.len() - i,
    {
        let c = &v[i];
        out.push(SpanCell { text: c.text.clone(), bbox: c.bbox, colspan: c.colspan, rowspan: c.rowspan });
        i = i + 1;
    }
    out
}

} // verus!

verus! {

fn str_or_err(pool: &[u8], s: LiteParseStr, what: &str, field: &str) -> (r: FfiResult<Option<String>>)
    ensures
        r is Ok <==> str_ok(pool@, s),
        r matches Ok(v) ==> opt_view(v) == str_text(pool@, s),
        r matches Err(e) ==> e.status == LITEPARSE_STATUS_INVALID_ARGUMENT && e.message@
            == str_error(pool@, s, what@, field@),
{
    str_field(pool, s, what, field)
}

fn take_text(s: Option<String>) -> (r: String)
    ensures
        r@ == (match opt_view(s) {
            Some(t) => t,
            None => Seq::<char>::empty(),
        }),
{
    match s {
        Some(t) => t,
        None => String::new(),
    }
}

fn block_flagged_rect(b: &LiteParseLayoutBlock, what: &str) -> (r: FfiResult<Option<LiteParseRect>>)
    ensures
        r is Ok <==> !(b.flags & LITEPARSE_BLOCK_FLAG_HAS_BBOX != 0 && !rect_finite(b.bbox)),
        r matches Ok(v) ==> v == flagged(b.flags, LITEPARSE_BLOCK_FLAG_HAS_BBOX, b.bbox),
        r matches Err(e) ==> e.status == LITEPARSE_STATUS_INVALID_ARGUMENT && e.message@
            == label_of(what@, "bbox"@) + " must be finite"@,
{
    flagged_rect(b.flags, LITEPARSE_BLOCK_FLAG_HAS_BBOX, &b.bbox, what, "bbox")
}

/// Read the body rows of a block.
fn copy_rows(arrays: &BlockArrays, rows: &[LiteParseLayoutRow], what: &str) -> (r: FfiResult<
    Vec<Vec<OwnedCell>>,
>)
    ensures
        r is Ok <==> rows_error(arrays.pool@, arrays.cells@, rows@, what@) is None,
        r matches Ok(v) ==> v@.len() == rows@.len() && forall|i: int|
            0 <= i < rows@.len() ==> cells_match(
                (#[trigger] v@[i])@,
                arrays.pool@,
                row_cells(arrays.cells@, rows@, i),
            ),
        r matches Err(e) ==> e.status == LITEPARSE_STATUS_INVALID_ARGUMENT && Some(e.message@)
            == rows_error(arrays.pool@, arrays.cells@, rows@, what@),
{
    let ghost ok = |r: LiteParseLayoutRow|
        cells_error(arrays.pool@, arrays.cells@, r.cell_offset, r.cell_count, what@, "rows"@) is None;
    let mut body: Vec<Vec<OwnedCell>> = Vec::new();
    let mut i: usize = 0;
    while i < rows.len()
        invariant
            0 <= i <= rows@.len(),
            ok == (|r: LiteParseLayoutRow|
                cells_error(arrays.pool@, arrays.cells@, r.cell_offset, r.cell_count, what@, "rows"@)
                    is None),
            forall|k: int| 0 <= k < i ==> ok(#[trigger] rows@[k]),
            body@.len() == i,
            forall|k: int|
                0 <= k < i ==> cells_match(
                    (#[trigger] body@[k])@,
                    arrays.pool@,
                    row_cells(arrays.cells@, rows@, k),
                ),
        decreases rows@.len() - i,
    {
        proof {
            lemma_first_fail(rows@, ok);
        }
        let row = rows[i];
        match copy_cells(arrays.pool, arrays.cells, row.cell_offset, row.cell_count, what, "rows") {
            Ok(v) => body.push(v),
            Err(e) => {
                assert(first_fail(rows@, ok) == i);
                return Err(e);
            },
        }
        i = i + 1;
    }
    proof {
        lemma_first_fail(rows@, ok);
    }
    Ok(body)
}

/// Read one block record at place `what`.
pub fn copy_block(block: &LiteParseLayoutBlock, what: &str, arrays: &BlockArrays) -> (r: FfiResult<
    PositionedBlock,
>)
    ensures
        r is Ok <==> block_error(
            arrays.pool@,
            arrays.strings@,
            arrays.cells@,
            arrays.rows@,
            *block,
            what@,
        ) is None,
        r matches Ok(pb) ==> block_matches(
            pb,
            arrays.pool@,
            arrays.strings@,
            arrays.cells@,
            arrays.rows@,
            *block,
        ),
        r matches Err(e) ==> e.status == LITEPARSE_STATUS_INVALID_ARGUMENT && Some(e.message@)
            == block_error(arrays.pool@, arrays.strings@, arrays.cells@, arrays.rows@, *block, what@),
{
    let flags = block.flags;
    let pool = arrays.pool;
    match known_flags(flags, BLOCK_FLAGS, what, "") {
        Ok(()) => {},
        Err(e) => return Err(e),
    }
    let text = match str_or_err(pool, block.text, what, "text") {
        Ok(v) => v,
        Err(e) => return Err(e),
    };
    let marker = match str_or_err(pool, block.marker, what, "marker") {
        Ok(v) => v,
        Err(e) => return Err(e),
    };
    let lang = match str_or_err(pool, block.lang, what, "lang") {
        Ok(v) => v,
        Err(e) => return Err(e),
    };
    let id = match str_or_err(pool, block.id, what, "id") {
        Ok(v) => v,
        Err(e) => return Err(e),
    };
    let format = match str_or_err(pool, block.format, what, "format") {
        Ok(v) => v,
        Err(e) => return Err(e),
    };
    let bbox = match block_flagged_rect(block, what) {
        Ok(v) => v,
        Err(e) => return Err(e),
    };
    let lines = match copy_strings(pool, arrays.strings, block.line_offset, block.line_count, what, "lines") {
        Ok(v) => v,
        Err(e) => return Err(e),
    };
    let header = match copy_cells(
        pool,
        arrays.cells,
        block.header_cell_offset,
        block.header_cell_count,
        what,
        "header",
    ) {
        Ok(v) => v,
        Err(e) => return Err(e),
    };
    let rows = match crate::check::sub(arrays.rows, block.row_offset, block.row_count, what, "rows") {
        Ok(v) => v,
        Err(e) => return Err(e),
    };
    let body = match copy_rows(arrays, rows, what) {
        Ok(v) => v,
        Err(e) => return Err(e),
    };
    let has_level = flags & LITEPARSE_BLOCK_FLAG_HAS_LEVEL != 0;
    let bold = flags & LITEPARSE_BLOCK_FLAG_BOLD != 0;
    let italic = flags & LITEPARSE_BLOCK_FLAG_ITALIC != 0;
    let inner = if block.kind == LITEPARSE_BLOCK_HEADING {
        let level = if has_level {
            block.level
        } else {
            1
        };
        if !(1 <= level && level <= 6) {
            let mut message = String::from_str(what);
            message.append(" heading level must be 1-6");
            return Err(FfiError::invalid_argument(message));
        }
        Block::Heading { level: level as u8, text: take_text(text) }
    } else if block.kind == LITEPARSE_BLOCK_PARAGRAPH {
        Block::Paragraph { text: take_text(text), bold, italic }
    } else if block.kind == LITEPARSE_BLOCK_LIST_ITEM {
        let level = if has_level {
            block.level
        } else {
            0
        };
        if level > 255 {
            let mut message = String::from_str(what);
            message.append(" list level must fit in u8");
            return Err(FfiError::invalid_argument(message));
        }
        Block::ListItem {
            ordered: flags & LITEPARSE_BLOCK_FLAG_HAS_ORDERED != 0 && flags
                & LITEPARSE_BLOCK_FLAG_ORDERED != 0,
            marker: take_text(marker),
            level: level as u8,
            text: take_text(text),
            bold,
            italic,
        }
    } else if block.kind == LITEPARSE_BLOCK_CODE {
        Block::CodeBlock { lines, lang }
    } else if block.kind == LITEPARSE_BLOCK_TABLE {
        let header_cells = if flags & LITEPARSE_BLOCK_FLAG_HAS_HEADER != 0 {
            Some(
                plain_cells(
                    &header,
                    Ghost(pool@),
                    Ghost(range_of(arrays.cells@, block.header_cell_offset, block.header_cell_count)),
                ),
            )
        } else {
            None
        };
        let mut plain_rows: Vec<Vec<Cell>> = Vec::new();
        let mut i: usize = 0;
        while i < body.len()
            invariant
                0 <= i <= body@.len(),
                body@.len() == rows@.len(),
                forall|k: int|
                    0 <= k < rows@.len() ==> cells_match(
                        (#[trigger] body@[k])@,
                        pool@,
                        row_cells(arrays.cells@, rows@, k),
                    ),
                plain_rows@.len() == i,
                forall|k: int|
                    0 <= k < i ==> plain_cells_match(
                        (#[trigger] plain_rows@[k])@,
                        pool@,
                        row_cells(arrays.cells@, rows@, k),
                    ),
            decreases body@.len() - i,
        {
            plain_rows.push(
                plain_cells(&body[i], Ghost(pool@), Ghost(row_cells(arrays.cells@, rows@, i as int))),
            );
            i = i + 1;
        }
        Block::Table { header: header_cells, rows: plain_rows }
    } else if block.kind == LITEPARSE_BLOCK_MERGED_TABLE {
        let mut span_rows: Vec<Vec<SpanCell>> = Vec::new();
        let mut i: usize = 0;
        while i < body.len()
            invariant
                0 <= i <= body@.len(),
                body@.len() == rows@.len(),
                forall|k: int|
                    0 <= k < rows@.len() ==> cells_match(
                        (#[trigger] body@[k])@,
                        pool@,
                        row_cells(arrays.cells@, rows@, k),
                    ),
                span_rows@.len() == i,
                forall|k: int|
                    0 <= k < i ==> span_cells_match(
                        (#[trigger] span_rows@[k])@,
                        pool@,
                        row_cells(arrays.cells@, rows@, k),
                    ),
            decreases body@.len() - i,
        {
            span_rows.push(
                span_cells(&body[i], Ghost(pool@), Ghost(row_cells(arrays.cells@, rows@, i as int))),
            );
            i = i + 1;
        }
        let header_rows = if flags & LITEPARSE_BLOCK_FLAG_HAS_HEADER_ROWS != 0 {
            block.header_rows as usize
        } else {
            0
        };
        Block::MergedTable { rows: span_rows, header_rows }
    } else if block.kind == LITEPARSE_BLOCK_GRID_FALLBACK {
        Block::GridFallback { lines }
    } else if block.kind == LITEPARSE_BLOCK_RULE {
        Block::HorizontalRule
    } else if block.kind == LITEPARSE_BLOCK_FIGURE {
        Block::Figure { id: take_text(id), format: take_text(format) }
    } else {
        let mut message = String::from_str(what);
        message.append(" has unknown kind ");
        push_decimal(&mut message, block.kind as u64);
        return Err(FfiError::invalid_argument(message));
    };
    Ok(PositionedBlock { block: inner, bbox })
}

} // verus!
