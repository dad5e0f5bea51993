//! Heuristic-free text runs packed into flat arrays: pages, items,
//! character codes and Type3 glyph names, strings in one pool.

use vstd::prelude::*;
use vstd::utf8::encode_utf8;
use crate::check::{LiteParsePageGeometry, LiteParseRect, geometry_or_default, no_geometry};
use crate::packing::{PackFrom, all_appended, pack_all, start_of};
use crate::pool::{LiteParseStr, Pool};
use crate::projected::append_copies;
use crate::records::{bit_if, flag_if, opt_bytes, push_opt_string, str_at};

verus! {

/// `LiteParseRawTextPage.flags` bits.
pub const LITEPARSE_RAW_PAGE_FLAG_HAS_GEOMETRY: u32 = 1;
pub const LITEPARSE_RAW_PAGE_FLAG_HAS_ROTATION: u32 = 2;

/// `LiteParseRawTextItem.flags` bits.
pub const LITEPARSE_RAW_ITEM_FLAG_HAS_GLYPH_NAMES: u32 = 1;
pub const LITEPARSE_RAW_ITEM_FLAG_HAS_GROUNDING_BOUNDS: u32 = 2;
pub const LITEPARSE_RAW_ITEM_FLAG_HAS_BASELINE_GAP: u32 = 4;
pub const LITEPARSE_RAW_ITEM_FLAG_HAS_MCID: u32 = 8;
pub const LITEPARSE_RAW_ITEM_FLAG_HAS_FILL_COLOR: u32 = 16;
pub const LITEPARSE_RAW_ITEM_FLAG_HAS_STROKE_COLOR: u32 = 32;
pub const LITEPARSE_RAW_ITEM_FLAG_FONT_IS_BUGGY: u32 = 64;
pub const LITEPARSE_RAW_ITEM_FLAG_TRAILING_SPACE_GENERATED: u32 = 128;

/// One extracted page; `item_offset/count` index the items.
#[derive(Clone, Copy, Debug, PartialEq, Eq, Structural)]
pub struct LiteParseRawTextPage {
    pub label: LiteParseStr,
    pub geometry: LiteParsePageGeometry,
    pub page_number: u32,
    pub flags: u32,
    pub width: u32,
    pub height: u32,
    pub item_offset: u32,
    pub item_count: u32,
}

/// One text run. `char_code_offset/count` index the character codes;
/// `glyph_name_offset/count` (Type3 fonts only, parallel to the codes) the
/// glyph names. Single-precision fields are `f32` bits, `baseline_gap`
/// `f64` bits.
#[derive(Clone, Copy, Debug, PartialEq, Eq, Structural)]
pub struct LiteParseRawTextItem {
    pub text: LiteParseStr,
    pub font_name: LiteParseStr,
    pub baseline_gap: u64,
    pub grounding_bounds: LiteParseRect,
    pub angle_radians: u32,
    pub text_width: u32,
    pub x: u32,
    pub y: u32,
    pub width: u32,
    pub height: u32,
    pub font_size: u32,
    pub font_height: u32,
    pub font_ascent: u32,
    pub font_descent: u32,
    pub font_weight: i32,
    pub mcid: i32,
    pub fill_color: u32,
    pub stroke_color: u32,
    pub char_code_offset: u32,
    pub char_code_count: u32,
    pub glyph_name_offset: u32,
    pub glyph_name_count: u32,
    pub flags: u32,
}

/// A text run as extraction reports it. `grounding_bounds` is already a
/// rectangle: left, top, right minus left, bottom minus top.
pub struct RawTextItem {
    pub text: String,
    pub font_name: String,
    pub baseline_gap: Option<u64>,
    pub grounding_bounds: Option<LiteParseRect>,
    pub angle_radians: u32,
    pub text_width: u32,
    pub x: u32,
    pub y: u32,
    pub width: u32,
    pub height: u32,
    pub font_size: u32,
    pub font_height: u32,
    pub font_ascent: u32,
    pub font_descent: u32,
    pub font_weight: i32,
    pub mcid: Option<i32>,
    pub fill_color: Option<u32>,
    pub stroke_color: Option<u32>,
    pub char_codes: Vec<u32>,
    pub glyph_names: Option<Vec<String>>,
    pub font_is_buggy: bool,
    pub trailing_space_generated: bool,
}

/// One page of runs.
pub struct RawPage {
    pub page_number: u32,
    pub page_label: Option<String>,
    pub page_width: u32,
    pub page_height: u32,
    pub geometry: Option<(LiteParsePageGeometry, bool)>,
    pub items: Vec<RawTextItem>,
}

impl PackFrom<String> for LiteParseStr {
    open spec fn appended(item: &String) -> Seq<u8> {
        encode_utf8(item@)
    }

    open spec fn packed(start: nat, item: &String) -> Self {
        LiteParseStr { offset: start as u32, len: encode_utf8(item@).len() as u32 }
    }

    fn pack_from(pool: &mut Pool, item: &String) -> (r: Self) {
        pool.push(item.as_str())
    }
}

/// The arrays of a raw-text view.
#[verifier::ext_equal]
pub struct RawView {
    pub pool: Seq<u8>,
    pub pages: Seq<LiteParseRawTextPage>,
    pub items: Seq<LiteParseRawTextItem>,
    pub char_codes: Seq<u32>,
    pub glyph_names: Seq<LiteParseStr>,
}

pub open spec fn empty_raw() -> RawView {
    RawView {
        pool: Seq::empty(),
        pages: Seq::empty(),
        items: Seq::empty(),
        char_codes: Seq::empty(),
        glyph_names: Seq::empty(),
    }
}

/// The glyph names of a run; none when its font reports none.
pub open spec fn names_of(it: RawTextItem) -> Seq<String> {
    match it.glyph_names {
        Some(v) => v@,
        None => Seq::empty(),
    }
}

pub open spec fn item_flags(it: RawTextItem) -> u32 {
    bit_if(it.glyph_names is Some, LITEPARSE_RAW_ITEM_FLAG_HAS_GLYPH_NAMES) | bit_if(
        it.grounding_bounds is Some,
        LITEPARSE_RAW_ITEM_FLAG_HAS_GROUNDING_BOUNDS,
    ) | bit_if(it.baseline_gap is Some, LITEPARSE_RAW_ITEM_FLAG_HAS_BASELINE_GAP) | bit_if(
        it.mcid is Some,
        LITEPARSE_RAW_ITEM_FLAG_HAS_MCID,
    ) | bit_if(it.fill_color is Some, LITEPARSE_RAW_ITEM_FLAG_HAS_FILL_COLOR) | bit_if(
        it.stroke_color is Some,
        LITEPARSE_RAW_ITEM_FLAG_HAS_STROKE_COLOR,
    ) | bit_if(it.font_is_buggy, LITEPARSE_RAW_ITEM_FLAG_FONT_IS_BUGGY) | bit_if(
        it.trailing_space_generated,
        LITEPARSE_RAW_ITEM_FLAG_TRAILING_SPACE_GENERATED,
    )
}

pub open spec fn zero_rect() -> LiteParseRect {
    LiteParseRect { x: 0, y: 0, width: 0, height: 0 }
}

/// The record of a run whose strings start at pool offset `text_at`, and
/// whose codes and names start at `codes_at` and `names_at`.
pub open spec fn item_record(it: RawTextItem, text_at: nat, codes_at: nat, names_at: nat) -> LiteParseRawTextItem {
    LiteParseRawTextItem {
        text: str_at(text_at, Some(it.text)),
        font_name: str_at(text_at + encode_utf8(it.text@).len(), Some(it.font_name)),
        baseline_gap: match it.baseline_gap {
            Some(g) => g,
            None => 0,
        },
        grounding_bounds: match it.grounding_bounds {
            Some(b) => b,
            None => zero_rect(),
        },
        angle_radians: it.angle_radians,
        text_width: it.text_width,
        x: it.x,
        y: it.y,
        width: it.width,
        height: it.height,
        font_size: it.font_size,
        font_height: it.font_height,
        font_ascent: it.font_ascent,
        font_descent: it.font_descent,
        font_weight: it.font_weight,
        mcid: match it.mcid {
            Some(m) => m,
            None => 0,
        },
        fill_color: match it.fill_color {
            Some(c) => c,
            None => 0,
        },
        stroke_color: match it.stroke_color {
            Some(c) => c,
            None => 0,
        },
        char_code_offset: codes_at as u32,
        char_code_count: it.char_codes@.len() as u32,
        glyph_name_offset: names_at as u32,
        glyph_name_count: names_of(it).len() as u32,
        flags: item_flags(it),
    }
}

/// Packing one run: its codes, its glyph names (pooled), then its text and
/// font name (pooled), then its record.
pub open spec fn item_step(v: RawView, it: RawTextItem) -> RawView {
    let names = names_of(it);
    let name_bytes = all_appended::<String, LiteParseStr>(names);
    let text_at = v.pool.len() + name_bytes.len();
    RawView {
        pool: v.pool + name_bytes + encode_utf8(it.text@) + encode_utf8(it.font_name@),
        pages: v.pages,
        items: v.items.push(item_record(it, text_at, v.char_codes.len(), v.glyph_names.len())),
        char_codes: v.char_codes + it.char_codes@,
        glyph_names: v.glyph_names + Seq::new(
            names.len(),
            |i: int|
                <LiteParseStr as PackFrom<String>>::packed(
                    start_of::<String, LiteParseStr>(v.pool.len(), names, i),
                    &names[i],
                ),
        ),
    }
}

pub open spec fn items_step(v: RawView, its: Seq<RawTextItem>) -> RawView
    decreases its.len(),
{
    if its.len() == 0 {
        v
    } else {
        item_step(items_step(v, its.drop_last()), its.last())
    }
}

pub open spec fn raw_page_flags(p: RawPage) -> u32 {
    bit_if(p.geometry is Some, LITEPARSE_RAW_PAGE_FLAG_HAS_GEOMETRY) | bit_if(
        p.geometry matches Some(g) && g.1,
        LITEPARSE_RAW_PAGE_FLAG_HAS_ROTATION,
    )
}

/// Packing one page: its runs, then its label, then its record.
pub open spec fn raw_page_step(v: RawView, p: RawPage) -> RawView {
    let v1 = items_step(v, p.items@);
    RawView {
        pool: v1.pool + opt_bytes(p.page_label),
        pages: v1.pages.push(
            LiteParseRawTextPage {
                label: str_at(v1.pool.len(), p.page_label),
                geometry: match p.geometry {
                    Some(g) => g.0,
                    None => no_geometry(),
                },
                page_number: p.page_number,
                flags: raw_page_flags(p),
                width: p.page_width,
                height: p.page_height,
                item_offset: v.items.len() as u32,
                item_count: p.items@.len() as u32,
            },
        ),
        ..v1
    }
}

pub open spec fn raw_pages_step(v: RawView, ps: Seq<RawPage>) -> RawView
    decreases ps.len(),
{
    if ps.len() == 0 {
        v
    } else {
        raw_page_step(raw_pages_step(v, ps.drop_last()), ps.last())
    }
}

/// Whether every array of `v` is addressable by `u32` offsets and counts.
pub open spec fn raw_fits(v: RawView) -> bool {
    &&& v.pool.len() <= u32::MAX
    &&& v.pages.len() <= u32::MAX
    &&& v.items.len() <= u32::MAX
    &&& v.char_codes.len() <= u32::MAX
    &&& v.glyph_names.len() <= u32::MAX
}

/// Whether `w` extends `v`: every array of `v` is a prefix of `w`'s.
pub open spec fn raw_grows(v: RawView, w: RawView) -> bool {
    &&& v.pool.len() <= w.pool.len()
    &&& v.pages.len() <= w.pages.len()
    &&& v.items.len() <= w.items.len()
    &&& v.char_codes.len() <= w.char_codes.len()
    &&& v.glyph_names.len() <= w.glyph_names.len()
}


proof fn lemma_items_grow(v: RawView, its: Seq<RawTextItem>, k: int)
    requires
        0 <= k <= its.len(),
    ensures
        raw_grows(v, items_step(v, its.take(k))),
        raw_grows(items_step(v, its.take(k)), items_step(v, its)),
    decreases its.len() - k,
{
    if k < its.len() {
        lemma_items_grow(v, its, k + 1);
        assert(its.take(k + 1).drop_last() =~= its.take(k));
    } else {
        assert(its.take(k) =~= its);
    }
    lemma_items_from(v, its.take(k));
}

proof fn lemma_items_from(v: RawView, its: Seq<RawTextItem>)
    ensures
        raw_grows(v, items_step(v, its)),
    decreases its.len(),
{
    if its.len() > 0 {
        lemma_items_from(v, its.drop_last());
    }
}

proof fn lemma_pages_grow(v: RawView, ps: Seq<RawPage>, k: int)
    requires
        0 <= k <= ps.len(),
    ensures
        raw_grows(raw_pages_step(v, ps.take(k)), raw_pages_step(v, ps)),
    decreases ps.len() - k,
{
    if k < ps.len() {
        lemma_pages_grow(v, ps, k + 1);
        assert(ps.take(k + 1).drop_last() =~= ps.take(k));
        lemma_items_from(raw_pages_step(v, ps.take(k)), ps[k].items@);
    } else {
        assert(ps.take(k) =~= ps);
    }
}

/// The arrays of a raw-text view, with the pool that backs its strings.
pub struct RawTextPacked {
    pub pool: Pool,
    pub pages: Vec<LiteParseRawTextPage>,
    pub items: Vec<LiteParseRawTextItem>,
    pub char_codes: Vec<u32>,
    pub glyph_names: Vec<LiteParseStr>,
}

impl RawTextPacked {
    pub open spec fn view_of(&self) -> RawView {
        RawView {
            pool: self.pool.view(),
            pages: self.pages@,
            items: self.items@,
            char_codes: self.char_codes@,
            glyph_names: self.glyph_names@,
        }
    }

    fn push_item(&mut self, it: &RawTextItem)
        requires
            raw_fits(item_step(old(self).view_of(), *it)),
        ensures
            final(self).view_of() == item_step(old(self).view_of(), *it),
    {
        let ghost v = self.view_of();
        let char_code_offset = self.char_codes.len();
        append_copies(&mut self.char_codes, it.char_codes.as_slice());
        let glyph_name_offset = self.glyph_names.len();
        let names: Vec<LiteParseStr> = match &it.glyph_names {
            Some(list) => pack_all(&mut self.pool, list.as_slice()),
            None => Vec::new(),
        };
        let name_count = names.len();
        append_copies(&mut self.glyph_names, names.as_slice());
        let ghost pool1 = self.pool.view();
        proof {
            assert(pool1 =~= v.pool + all_appended::<String, LiteParseStr>(names_of(*it)));
        }
        let text = self.pool.push(it.text.as_str());
        let font_name = self.pool.push(it.font_name.as_str());
        let record = LiteParseRawTextItem {
            text,
            font_name,
            baseline_gap: match it.baseline_gap {
                Some(g) => g,
                None => 0,
            },
            grounding_bounds: match it.grounding_bounds {
                Some(b) => b,
                None => LiteParseRect { x: 0, y: 0, width: 0, height: 0 },
            },
            angle_radians: it.angle_radians,
            text_width: it.text_width,
            x: it.x,
            y: it.y,
            width: it.width,
            height: it.height,
            font_size: it.font_size,
            font_height: it.font_height,
            font_ascent: it.font_ascent,
            font_descent: it.font_descent,
            font_weight: it.font_weight,
            mcid: match it.mcid {
                Some(m) => m,
                None => 0,
            },
            fill_color: match it.fill_color {
                Some(c) => c,
                None => 0,
            },
            stroke_color: match it.stroke_color {
                Some(c) => c,
                None => 0,
            },
            char_code_offset: char_code_offset as u32,
            char_code_count: it.char_codes.len() as u32,
            glyph_name_offset: glyph_name_offset as u32,
            glyph_name_count: name_count as u32,
            flags: flag_if(it.glyph_names.is_some(), LITEPARSE_RAW_ITEM_FLAG_HAS_GLYPH_NAMES)
                | flag_if(
                it.grounding_bounds.is_some(),
                LITEPARSE_RAW_ITEM_FLAG_HAS_GROUNDING_BOUNDS,
            ) | flag_if(it.baseline_gap.is_some(), LITEPARSE_RAW_ITEM_FLAG_HAS_BASELINE_GAP)
                | flag_if(it.mcid.is_some(), LITEPARSE_RAW_ITEM_FLAG_HAS_MCID) | flag_if(
                it.fill_color.is_some(),
                LITEPARSE_RAW_ITEM_FLAG_HAS_FILL_COLOR,
            ) | flag_if(it.stroke_color.is_some(), LITEPARSE_RAW_ITEM_FLAG_HAS_STROKE_COLOR)
                | flag_if(it.font_is_buggy, LITEPARSE_RAW_ITEM_FLAG_FONT_IS_BUGGY) | flag_if(
                it.trailing_space_generated,
                LITEPARSE_RAW_ITEM_FLAG_TRAILING_SPACE_GENERATED,
            ),
        };
        self.items.push(record);
        proof {
            assert(record == item_record(*it, pool1.len(), v.char_codes.len(), v.glyph_names.len()));
            assert(self.view_of() =~= item_step(v, *it));
        }
    }

    fn push_page(&mut self, page: &RawPage)
        requires
            raw_fits(raw_page_step(old(self).view_of(), *page)),
        ensures
            final(self).view_of() == raw_page_step(old(self).view_of(), *page),
    {
        let ghost v = self.view_of();
        let ghost target = raw_page_step(v, *page);
        let item_offset = self.items.len();
        let mut i: usize = 0;
        while i < page.items.len()
            invariant
                0 <= i <= page.items@.len(),
                raw_fits(target),
                target == raw_page_step(v, *page),
                self.view_of() == items_step(v, page.items@.take(i as int)),
            decreases page.items@.len() - i,
        {
            proof {
                lemma_items_grow(v, page.items@, i as int + 1);
                assert(page.items@.take(i as int + 1).drop_last() =~= page.items@.take(i as int));
            }
            self.push_item(&page.items[i]);
            i = i + 1;
        }
        assert(page.items@.take(page.items@.len() as int) =~= page.items@);
        let ghost v1 = self.view_of();
        let label = push_opt_string(&mut self.pool, &page.page_label);
        let (geometry, has_rotation) = geometry_or_default(page.geometry);
        let record = LiteParseRawTextPage {
            label,
            geometry,
            page_number: page.page_number,
            flags: flag_if(page.geometry.is_some(), LITEPARSE_RAW_PAGE_FLAG_HAS_GEOMETRY) | flag_if(
                has_rotation,
                LITEPARSE_RAW_PAGE_FLAG_HAS_ROTATION,
            ),
            width: page.page_width,
            height: page.page_height,
            item_offset: item_offset as u32,
            item_count: page.items.len() as u32,
        };
        self.pages.push(record);
        proof {
            assert(self.view_of() =~= raw_page_step(v, *page));
        }
    }

    /// Pack extracted pages into the arrays of a raw-text view.
    pub fn pack(source: &Vec<RawPage>) -> (r: Self)
        requires
            raw_fits(raw_pages_step(empty_raw(), source@)),
        ensures
            r.view_of() == raw_pages_step(empty_raw(), source@),
    {
        let mut packed = RawTextPacked {
            pool: Pool::new(),
            pages: Vec::new(),
            items: Vec::new(),
            char_codes: Vec::new(),
            glyph_names: Vec::new(),
        };
        assert(packed.view_of() =~= empty_raw());
        let mut i: usize = 0;
        while i < source.len()
            invariant
                0 <= i <= source@.len(),
                raw_fits(raw_pages_step(empty_raw(), source@)),
                packed.view_of() == raw_pages_step(empty_raw(), source@.take(i as int)),
            decreases source@.len() - i,
        {
            proof {
                lemma_pages_grow(empty_raw(), source@, i as int + 1);
                assert(source@.take(i as int + 1).drop_last() =~= source@.take(i as int));
            }
            packed.push_page(&source[i]);
            i = i + 1;
        }
        assert(source@.take(source@.len() as int) =~= source@);
        packed
    }
}


/// What a packed run record keeps of its run: its box, angle, width and
/// font metrics as given, and its marked-content id and colours, or zero
/// where it has none.
pub open spec fn keeps_run(rec: LiteParseRawTextItem, it: RawTextItem) -> bool {
    &&& rec.x == it.x
    &&& rec.y == it.y
    &&& rec.width == it.width
    &&& rec.height == it.height
    &&& rec.angle_radians == it.angle_radians
    &&& rec.text_width == it.text_width
    &&& rec.font_size == it.font_size
    &&& rec.font_height == it.font_height
    &&& rec.font_ascent == it.font_ascent
    &&& rec.font_descent == it.font_descent
    &&& rec.font_weight == it.font_weight
    &&& (it.mcid matches Some(m) ==> rec.mcid == m)
    &&& (it.mcid is None ==> rec.mcid == 0)
    &&& (it.fill_color matches Some(c) ==> rec.fill_color == c)
    &&& (it.fill_color is None ==> rec.fill_color == 0)
    &&& (it.stroke_color matches Some(c) ==> rec.stroke_color == c)
    &&& (it.stroke_color is None ==> rec.stroke_color == 0)
}

proof fn lemma_items_keep_runs(v: RawView, its: Seq<RawTextItem>)
    ensures
        items_step(v, its).items.len() == v.items.len() + its.len(),
        items_step(v, its).items.take(v.items.len() as int) == v.items,
        items_step(v, its).pages == v.pages,
        forall|k: int|
            0 <= k < its.len() ==> keeps_run(
                #[trigger] items_step(v, its).items[v.items.len() + k],
                its[k],
            ),
    decreases its.len(),
{
    if its.len() > 0 {
        let p = its.drop_last();
        lemma_items_keep_runs(v, p);
        let w = items_step(v, p);
        let r = items_step(v, its);
        assert(r.items == w.items.push(r.items.last()));
        assert(r.items.take(v.items.len() as int) =~= w.items.take(v.items.len() as int));
        assert forall|k: int| 0 <= k < its.len() implies keeps_run(
            #[trigger] r.items[v.items.len() + k],
            its[k],
        ) by {
            if k < p.len() {
                assert(r.items[v.items.len() + k] == w.items[v.items.len() + k]);
                assert(p[k] == its[k]);
            }
        }
    } else {
        assert(items_step(v, its).items.take(v.items.len() as int) =~= v.items);
    }
}

/// Every page's records are its runs, in order: the page names a range of
/// the run records as long as its list of runs, and the record at the
/// range's start plus `m` keeps run `m`'s box, angle, width, metrics,
/// marked-content id and colours.
pub proof fn lemma_raw_pages_keep_runs(ps: Seq<RawPage>)
    requires
        raw_fits(raw_pages_step(empty_raw(), ps)),
    ensures
        ({
            let v = raw_pages_step(empty_raw(), ps);
            &&& v.pages.len() == ps.len()
            &&& forall|k: int|
                0 <= k < ps.len() ==> {
                    let pg = #[trigger] v.pages[k];
                    &&& pg.item_count == ps[k].items@.len()
                    &&& pg.item_offset + pg.item_count <= v.items.len()
                    &&& forall|m: int|
                        0 <= m < pg.item_count ==> keeps_run(
                            #[trigger] v.items[pg.item_offset + m],
                            ps[k].items@[m],
                        )
                }
        }),
    decreases ps.len(),
{
    if ps.len() > 0 {
        let v = raw_pages_step(empty_raw(), ps);
        let q = ps.drop_last();
        let w = raw_pages_step(empty_raw(), q);
        let p = ps.last();
        lemma_pages_grow(empty_raw(), ps, ps.len() - 1);
        assert(ps.take(ps.len() - 1) =~= q);
        lemma_raw_pages_keep_runs(q);
        lemma_items_keep_runs(w, p.items@);
        let v1 = items_step(w, p.items@);
        assert(v.items == v1.items);
        assert(v.pages == v1.pages.push(v.pages.last()));
        let n = ps.len() - 1;
        assert forall|k: int| 0 <= k < ps.len() implies {
            let pg = #[trigger] v.pages[k];
            &&& pg.item_count == ps[k].items@.len()
            &&& pg.item_offset + pg.item_count <= v.items.len()
            &&& forall|m: int|
                0 <= m < pg.item_count ==> keeps_run(
                    #[trigger] v.items[pg.item_offset + m],
                    ps[k].items@[m],
                )
        } by {
            if k < n {
                let pg = w.pages[k];
                assert(v.pages[k] == pg);
                assert(q[k] == ps[k]);
                assert forall|m: int| 0 <= m < pg.item_count implies keeps_run(
                    #[trigger] v.items[pg.item_offset + m],
                    ps[k].items@[m],
                ) by {
                    assert(v.items[pg.item_offset + m] == w.items[pg.item_offset + m]);
                }
            } else {
                let pg = v.pages[k];
                assert(pg.item_offset == w.items.len());
                assert forall|m: int| 0 <= m < pg.item_count implies keeps_run(
                    #[trigger] v.items[pg.item_offset + m],
                    ps[k].items@[m],
                ) by {
                    assert(ps[k] == p);
                }
            }
        }
    }
}

} // verus!
