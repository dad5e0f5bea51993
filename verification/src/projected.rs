//! The projected-layout snapshot: parsed pages flattened into fixed-width
//! arrays of pages, lines, spans, words, character codes, region paths and
//! the XY-cut region tree, with `u64` offset/count ranges between them.

use vstd::prelude::*;
use vstd::utf8::encode_utf8;
use crate::check::LiteParseRect;
use crate::handle::slice_address;
use crate::region::{CutAxis, Region, RegionKind, tree_size, forest_size, lemma_forest_size_prefix};

verus! {

pub const LITEPARSE_PROJECTED_LAYOUT_COORDINATES: u32 = 1;
pub const LITEPARSE_PROJECTED_ANCHOR_LEFT: u32 = 0;
pub const LITEPARSE_PROJECTED_ANCHOR_RIGHT: u32 = 1;
pub const LITEPARSE_PROJECTED_ANCHOR_CENTER: u32 = 2;
pub const LITEPARSE_PROJECTED_ANCHOR_FLOATING: u32 = 3;
/// `parent_index` of a page's root region.
pub const LITEPARSE_PROJECTED_REGION_NO_PARENT: u64 = 0xffff_ffff_ffff_ffff;
pub const LITEPARSE_PROJECTED_LAYOUT_FLAG_RICH_METADATA: u32 = 1;
pub const LITEPARSE_PROJECTED_LAYOUT_FLAG_WORDS: u32 = 2;
pub const LITEPARSE_PROJECTED_LAYOUT_FLAG_CHAR_CODES: u32 = 4;
pub const LITEPARSE_PROJECTED_LAYOUT_FLAG_REGION_TREE: u32 = 8;
pub const LITEPARSE_PROJECTED_LAYOUT_FLAG_SOURCE_PROVENANCE_UNAVAILABLE: u32 = 16;
pub const LITEPARSE_PROJECTED_LAYOUT_FLAG_BLOCK_ASSOCIATIONS_UNAVAILABLE: u32 = 32;
pub const LITEPARSE_PROJECTED_LAYOUT_FLAG_WORDS_SOURCE_COORDINATES: u32 = 64;
pub const LITEPARSE_PROJECTED_LAYOUT_SNAPSHOT_VERSION: u32 = 1;

pub const LITEPARSE_PROJECTED_LINE_FLAG_HAS_HEADING_FONT_SIZE: u32 = 1;
pub const LITEPARSE_PROJECTED_LINE_FLAG_HAS_DOMINANT_FONT_NAME: u32 = 2;
pub const LITEPARSE_PROJECTED_LINE_FLAG_HAS_MCID: u32 = 4;
pub const LITEPARSE_PROJECTED_LINE_FLAG_ALL_BOLD: u32 = 8;
pub const LITEPARSE_PROJECTED_LINE_FLAG_ALL_ITALIC: u32 = 16;
pub const LITEPARSE_PROJECTED_LINE_FLAG_ALL_MONO: u32 = 32;
pub const LITEPARSE_PROJECTED_LINE_FLAG_ALL_STRIKE: u32 = 64;
pub const LITEPARSE_PROJECTED_LINE_FLAG_FONT_SIZE_ESTIMATED: u32 = 128;
pub const LITEPARSE_PROJECTED_LINE_FLAG_RTL: u32 = 256;
pub const LITEPARSE_PROJECTED_LINE_FLAG_IN_FIGURE: u32 = 512;

pub const LITEPARSE_PROJECTED_SPAN_FLAG_HAS_FONT_SIZE: u32 = 1;
pub const LITEPARSE_PROJECTED_SPAN_FLAG_HAS_CONFIDENCE: u32 = 2;
pub const LITEPARSE_PROJECTED_SPAN_FLAG_STRIKE: u32 = 4;
pub const LITEPARSE_PROJECTED_SPAN_FLAG_UNICODE_MAP_ERROR: u32 = 8;
pub const LITEPARSE_PROJECTED_SPAN_FLAG_HAS_FONT_FLAGS: u32 = 16;
pub const LITEPARSE_PROJECTED_SPAN_FLAG_HAS_FONT_HEIGHT: u32 = 32;
pub const LITEPARSE_PROJECTED_SPAN_FLAG_HAS_FONT_ASCENT: u32 = 64;
pub const LITEPARSE_PROJECTED_SPAN_FLAG_HAS_FONT_DESCENT: u32 = 128;
pub const LITEPARSE_PROJECTED_SPAN_FLAG_HAS_FONT_WEIGHT: u32 = 256;
pub const LITEPARSE_PROJECTED_SPAN_FLAG_HAS_TEXT_WIDTH: u32 = 512;
pub const LITEPARSE_PROJECTED_SPAN_FLAG_FONT_IS_BUGGY: u32 = 1024;
pub const LITEPARSE_PROJECTED_SPAN_FLAG_HAS_MCID: u32 = 2048;
pub const LITEPARSE_PROJECTED_SPAN_FLAG_TRAILING_SPACE_GENERATED: u32 = 4096;
pub const LITEPARSE_PROJECTED_SPAN_FLAG_HAS_CHAR_CODES: u32 = 8192;
pub const LITEPARSE_PROJECTED_SPAN_FLAG_HAS_WORDS: u32 = 16384;
pub const LITEPARSE_PROJECTED_SPAN_FLAG_HAS_FONT_NAME: u32 = 32768;
pub const LITEPARSE_PROJECTED_SPAN_FLAG_HAS_LINK: u32 = 65536;
pub const LITEPARSE_PROJECTED_SPAN_FLAG_HAS_FILL_COLOR: u32 = 131072;
pub const LITEPARSE_PROJECTED_SPAN_FLAG_HAS_STROKE_COLOR: u32 = 262144;

pub const LITEPARSE_PROJECTED_REGION_FLAG_LEAF: u32 = 1;
pub const LITEPARSE_PROJECTED_REGION_FLAG_SPLIT: u32 = 2;
pub const LITEPARSE_PROJECTED_REGION_FLAG_HORIZONTAL: u32 = 4;
pub const LITEPARSE_PROJECTED_REGION_FLAG_VERTICAL: u32 = 8;

/// Fixed-width borrowed bytes: the address of the first byte and the
/// length. Absent is address zero with length zero.
#[derive(Clone, Copy, Debug, PartialEq, Eq, Structural)]
pub struct LiteParseLayoutBytes {
    pub ptr: usize,
    pub len: u64,
}

/// Bytes of a string, borrowed.
pub fn fixed_bytes(value: &[u8]) -> (b: LiteParseLayoutBytes)
    ensures
        b.len == value@.len(),
{
    LiteParseLayoutBytes { ptr: slice_address(value), len: value.len() as u64 }
}

/// An optional string, borrowed; absent is the zero view.
pub fn optional_fixed_str(value: Option<&str>) -> (b: LiteParseLayoutBytes)
    ensures
        b.len == opt_len(
            match value {
                Some(s) => Some(s@),
                None => None,
            },
        ),
        value is None ==> b.ptr == 0,
{
    match value {
        Some(s) => fixed_bytes(s.as_bytes()),
        None => LiteParseLayoutBytes { ptr: 0, len: 0 },
    }
}

/// Length in bytes of the UTF-8 encoding of `s`.
pub open spec fn utf8_len(s: Seq<char>) -> nat {
    encode_utf8(s).len()
}

pub open spec fn opt_len(s: Option<Seq<char>>) -> nat {
    match s {
        Some(t) => utf8_len(t),
        None => 0,
    }
}

/// A view with its address forgotten.
pub open spec fn erase(b: LiteParseLayoutBytes) -> LiteParseLayoutBytes {
    LiteParseLayoutBytes { ptr: 0, len: b.len }
}

/// The view of `len` bytes, address forgotten.
pub open spec fn bytes_of_len(len: nat) -> LiteParseLayoutBytes {
    LiteParseLayoutBytes { ptr: 0, len: len as u64 }
}

/// One flattened region. `parent_index`, and the entries of the region
/// children array in `child_offset..+child_count`, are absolute indices into
/// the region array; `item_offset..+item_count` is the run of item indices
/// of the node's whole subtree.
#[derive(Clone, Copy, Debug, PartialEq, Eq, Structural)]
pub struct LiteParseProjectedRegion {
    pub bbox: LiteParseRect,
    pub parent_index: u64,
    pub child_offset: u64,
    pub child_count: u64,
    pub item_offset: u64,
    pub item_count: u64,
    pub flags: u32,
    pub reserved: u32,
}

pub open spec fn split_flags(axis: CutAxis) -> u32 {
    match axis {
        CutAxis::Horizontal => LITEPARSE_PROJECTED_REGION_FLAG_SPLIT
            | LITEPARSE_PROJECTED_REGION_FLAG_HORIZONTAL,
        CutAxis::Vertical => LITEPARSE_PROJECTED_REGION_FLAG_SPLIT
            | LITEPARSE_PROJECTED_REGION_FLAG_VERTICAL,
    }
}

/// Number of item indices in the leaves of a tree.
pub open spec fn tree_items(r: Region<LiteParseRect>) -> nat
    decreases r,
{
    match r.kind {
        RegionKind::Leaf { item_indices } => item_indices@.len(),
        RegionKind::Split { children, .. } => forest_items(children@),
    }
}

pub open spec fn forest_items(cs: Seq<Region<LiteParseRect>>) -> nat
    decreases cs,
{
    if cs.len() == 0 {
        0
    } else {
        forest_items(cs.subrange(0, cs.len() - 1)) + tree_items(cs[cs.len() - 1])
    }
}

/// Index of each child's root when the children are laid out from `base`.
pub open spec fn child_roots(cs: Seq<Region<LiteParseRect>>, base: nat) -> Seq<u64>
    decreases cs.len(),
{
    if cs.len() == 0 {
        Seq::empty()
    } else {
        let p = cs.subrange(0, cs.len() - 1);
        child_roots(p, base).push((base + forest_size(p)) as u64)
    }
}

/// What flattening a region tree appends to the region, region-children
/// and region-item arrays, given the parent index and the three array
/// lengths before it.
pub open spec fn flat_tree(
    r: Region<LiteParseRect>,
    parent: u64,
    base: nat,
    cbase: nat,
    ibase: nat,
) -> (Seq<LiteParseProjectedRegion>, Seq<u64>, Seq<u64>)
    decreases r,
{
    match r.kind {
        RegionKind::Leaf { item_indices } => (
            seq![
                LiteParseProjectedRegion {
                    bbox: r.bbox,
                    parent_index: parent,
                    child_offset: cbase as u64,
                    child_count: 0,
                    item_offset: ibase as u64,
                    item_count: item_indices@.len() as u64,
                    flags: LITEPARSE_PROJECTED_REGION_FLAG_LEAF,
                    reserved: 0,
                },
            ],
            Seq::empty(),
            item_indices@.map_values(|i: usize| i as u64),
        ),
        RegionKind::Split { axis, children } => {
            let inner = flat_forest(children@, base as u64, base + 1, cbase, ibase);
            (
                seq![
                    LiteParseProjectedRegion {
                        bbox: r.bbox,
                        parent_index: parent,
                        child_offset: (cbase + inner.1.len()) as u64,
                        child_count: children@.len() as u64,
                        item_offset: ibase as u64,
                        item_count: inner.2.len() as u64,
                        flags: split_flags(axis),
                        reserved: 0,
                    },
                ] + inner.0,
                inner.1 + child_roots(children@, base + 1),
                inner.2,
            )
        },
    }
}

/// Flattening sibling trees one after the other.
pub open spec fn flat_forest(
    cs: Seq<Region<LiteParseRect>>,
    parent: u64,
    base: nat,
    cbase: nat,
    ibase: nat,
) -> (Seq<LiteParseProjectedRegion>, Seq<u64>, Seq<u64>)
    decreases cs,
{
    if cs.len() == 0 {
        (Seq::empty(), Seq::empty(), Seq::empty())
    } else {
        let p = cs.subrange(0, cs.len() - 1);
        let a = flat_forest(p, parent, base, cbase, ibase);
        let b = flat_tree(
            cs[cs.len() - 1],
            parent,
            base + a.0.len(),
            cbase + a.1.len(),
            ibase + a.2.len(),
        );
        (a.0 + b.0, a.1 + b.1, a.2 + b.2)
    }
}

pub proof fn lemma_tree_lengths(r: Region<LiteParseRect>, parent: u64, base: nat, cbase: nat, ibase: nat)
    ensures
        flat_tree(r, parent, base, cbase, ibase).0.len() == tree_size(r),
        flat_tree(r, parent, base, cbase, ibase).1.len() + 1 == tree_size(r),
        flat_tree(r, parent, base, cbase, ibase).2.len() == tree_items(r),
    decreases r,
{
    match r.kind {
        RegionKind::Leaf { .. } => {},
        RegionKind::Split { axis, children } => {
            lemma_forest_lengths(children@, base as u64, base + 1, cbase, ibase);
            lemma_child_roots_len(children@, base + 1);
        },
    }
}

pub proof fn lemma_forest_lengths(
    cs: Seq<Region<LiteParseRect>>,
    parent: u64,
    base: nat,
    cbase: nat,
    ibase: nat,
)
    ensures
        flat_forest(cs, parent, base, cbase, ibase).0.len() == forest_size(cs),
        flat_forest(cs, parent, base, cbase, ibase).1.len() + cs.len() == forest_size(cs),
        flat_forest(cs, parent, base, cbase, ibase).2.len() == forest_items(cs),
    decreases cs,
{
    if cs.len() > 0 {
        let p = cs.subrange(0, cs.len() - 1);
        lemma_forest_lengths(p, parent, base, cbase, ibase);
        let a = flat_forest(p, parent, base, cbase, ibase);
        lemma_tree_lengths(
            cs[cs.len() - 1],
            parent,
            base + a.0.len(),
            cbase + a.1.len(),
            ibase + a.2.len(),
        );
    }
}

pub proof fn lemma_child_roots_len(cs: Seq<Region<LiteParseRect>>, base: nat)
    ensures
        child_roots(cs, base).len() == cs.len(),
    decreases cs.len(),
{
    if cs.len() > 0 {
        lemma_child_roots_len(cs.subrange(0, cs.len() - 1), base);
    }
}

proof fn lemma_forest_items_prefix(cs: Seq<Region<LiteParseRect>>, i: int)
    requires
        0 <= i <= cs.len(),
    ensures
        forest_items(cs.take(i)) <= forest_items(cs),
    decreases cs.len() - i,
{
    if i < cs.len() {
        lemma_forest_items_prefix(cs, i + 1);
        assert(cs.take(i + 1).subrange(0, i) =~= cs.take(i));
    } else {
        assert(cs.take(i) =~= cs);
    }
}

#[derive(Clone, Copy, Debug, PartialEq, Eq, Structural)]
pub struct LiteParseProjectedSpan {
    pub text: LiteParseLayoutBytes,
    pub font_name: LiteParseLayoutBytes,
    pub link: LiteParseLayoutBytes,
    pub fill_color: LiteParseLayoutBytes,
    pub stroke_color: LiteParseLayoutBytes,
    pub x: u32,
    pub y: u32,
    pub width: u32,
    pub height: u32,
    pub rotation: u32,
    pub font_size: u32,
    pub confidence: u32,
    pub font_flags: i32,
    pub font_height: u32,
    pub font_ascent: u32,
    pub font_descent: u32,
    pub font_weight: i32,
    pub text_width: u32,
    pub mcid: i32,
    pub char_code_offset: u64,
    pub char_code_count: u64,
    pub word_offset: u64,
    pub word_count: u64,
    pub flags: u32,
}

#[derive(Clone, Copy, Debug, PartialEq, Eq, Structural)]
pub struct LiteParseProjectedWord {
    pub text: LiteParseLayoutBytes,
    pub x: u32,
    pub y: u32,
    pub width: u32,
    pub height: u32,
}

#[derive(Clone, Copy, Debug, PartialEq, Eq, Structural)]
pub struct LiteParseProjectedLine {
    pub text: LiteParseLayoutBytes,
    pub dominant_font_name: LiteParseLayoutBytes,
    pub bbox: LiteParseRect,
    pub indent_x: u32,
    pub dominant_font_size: u32,
    pub heading_font_size: u32,
    pub mcid: i32,
    pub anchor: u32,
    pub flags: u32,
    pub span_offset: u64,
    pub span_count: u64,
    pub region_path_offset: u64,
    pub region_path_count: u64,
}

#[derive(Clone, Copy, Debug, PartialEq, Eq, Structural)]
pub struct LiteParseProjectedLayoutPage {
    pub page_number: u32,
    pub coordinate_space: u32,
    pub flags: u32,
    pub width: u32,
    pub height: u32,
    pub line_offset: u64,
    pub line_count: u64,
    pub span_offset: u64,
    pub span_count: u64,
    pub word_offset: u64,
    pub word_count: u64,
    pub char_code_offset: u64,
    pub char_code_count: u64,
    pub region_path_offset: u64,
    pub region_path_count: u64,
    pub region_offset: u64,
    pub region_count: u64,
    pub region_item_offset: u64,
    pub region_item_count: u64,
    pub region_child_offset: u64,
    pub region_child_count: u64,
}

/// Totals and flags of the whole snapshot.
#[derive(Clone, Copy, Debug, PartialEq, Eq, Structural)]
pub struct LiteParseProjectedLayoutSnapshot {
    pub version: u32,
    pub coordinate_space: u32,
    pub flags: u32,
    pub reserved: u32,
    pub page_count: u64,
    pub line_count: u64,
    pub span_count: u64,
    pub word_count: u64,
    pub char_code_count: u64,
    pub region_path_count: u64,
    pub region_count: u64,
    pub region_item_count: u64,
    pub region_child_count: u64,
}

/// The region tree's three arrays.
pub struct RegionArrays {
    pub regions: Vec<LiteParseProjectedRegion>,
    pub region_items: Vec<u64>,
    pub region_children: Vec<u64>,
}

/// Every array the snapshot is made of.
pub struct ProjectedLayoutPacked {
    pub snapshot: LiteParseProjectedLayoutSnapshot,
    pub pages: Vec<LiteParseProjectedLayoutPage>,
    pub lines: Vec<LiteParseProjectedLine>,
    pub spans: Vec<LiteParseProjectedSpan>,
    pub words: Vec<LiteParseProjectedWord>,
    pub char_codes: Vec<u32>,
    pub region_paths: Vec<u16>,
    pub tree: RegionArrays,
}

/// Array lengths stay far below `u64::MAX`; this is the bound the packer
/// keeps them under.
pub open spec fn fits(n: nat) -> bool {
    n <= 0xffff_ffff_ffff_0000
}

impl RegionArrays {
    /// Append `region` and its subtree in pre-order with `parent_index` on
    /// its root, and return the root's index. A node's children are
    /// appended after its descendants' own lists, so every node's children
    /// stay contiguous; a split's item range covers its whole subtree.
    #[verifier::loop_isolation(false)]
    pub fn flatten_region(&mut self, region: &Region<LiteParseRect>, parent_index: u64) -> (idx: u64)
        ensures
            idx == old(self).regions@.len(),
            ({
                let t = flat_tree(
                    *region,
                    parent_index,
                    old(self).regions@.len() as nat,
                    old(self).region_children@.len() as nat,
                    old(self).region_items@.len() as nat,
                );
                &&& final(self).regions@ == old(self).regions@ + t.0
                &&& final(self).region_children@ == old(self).region_children@ + t.1
                &&& final(self).region_items@ == old(self).region_items@ + t.2
            }),
        decreases region,
    {
        let ghost base = self.regions@.len() as nat;
        let ghost cbase = self.region_children@.len() as nat;
        let ghost ibase = self.region_items@.len() as nat;
        let ghost old_regions = self.regions@;
        let ghost old_children = self.region_children@;
        let ghost old_items = self.region_items@;
        let node_index = self.regions.len() as u64;
        self.regions.push(
            LiteParseProjectedRegion {
                bbox: region.bbox,
                parent_index,
                child_offset: 0,
                child_count: 0,
                item_offset: 0,
                item_count: 0,
                flags: 0,
                reserved: 0,
            },
        );
        let ghost head = self.regions@;
        let item_offset = self.region_items.len();
        match &region.kind {
            RegionKind::Leaf { item_indices } => {
                let mut k: usize = 0;
                while k < item_indices.len()
                    invariant
                        0 <= k <= item_indices@.len(),
                        self.region_items@ == old_items + item_indices@.take(k as int).map_values(
                            |i: usize| i as u64,
                        ),
                        self.regions@ == head,
                        self.region_children@ == old_children,
                    decreases item_indices@.len() - k,
                {
                    self.region_items.push(item_indices[k] as u64);
                    k = k + 1;
                    assert(self.region_items@ =~= old_items + item_indices@.take(
                        k as int,
                    ).map_values(|i: usize| i as u64));
                }
                assert(item_indices@.take(item_indices@.len() as int) =~= item_indices@);
                let child_offset = self.region_children.len() as u64;
                self.regions.set(
                    node_index as usize,
                    LiteParseProjectedRegion {
                        bbox: region.bbox,
                        parent_index,
                        child_offset,
                        child_count: 0,
                        item_offset: item_offset as u64,
                        item_count: (self.region_items.len() - item_offset) as u64,
                        flags: LITEPARSE_PROJECTED_REGION_FLAG_LEAF,
                        reserved: 0,
                    },
                );
                proof {
                    let t = flat_tree(*region, parent_index, base, cbase, ibase);
                    assert(self.regions@ =~= old_regions + t.0);
                    assert(self.region_children@ =~= old_children + t.1);
                    assert(self.region_items@ =~= old_items + t.2);
                }
                node_index
            },
            RegionKind::Split { axis, children } => {
                proof {
                    lemma_forest_lengths(children@, base as u64, base + 1, cbase, ibase);
                    lemma_child_roots_len(children@, base + 1);
                }
                let mut child_indices: Vec<u64> = Vec::new();
                let mut i: usize = 0;
                while i < children.len()
                    invariant
                        0 <= i <= children@.len(),
                        node_index == base,
                        tree_size(*region) == 1 + forest_size(children@),
                        tree_items(*region) == forest_items(children@),
                        head.len() == base + 1,
                        old_children.len() == cbase,
                        old_items.len() == ibase,
                        ({
                            let f = flat_forest(
                                children@.take(i as int),
                                base as u64,
                                base + 1,
                                cbase,
                                ibase,
                            );
                            &&& self.regions@ == head + f.0
                            &&& self.region_children@ == old_children + f.1
                            &&& self.region_items@ == old_items + f.2
                        }),
                        child_indices@ == child_roots(children@.take(i as int), base + 1),
                    decreases children@.len() - i,
                {
                    let ghost pre = children@.take(i as int);
                    let ghost next = children@.take(i as int + 1);
                    proof {
                        assert(next.subrange(0, next.len() - 1) =~= pre);
                        assert(next[next.len() - 1] == children@[i as int]);
                        lemma_forest_lengths(pre, base as u64, base + 1, cbase, ibase);
                        lemma_forest_size_prefix(children@, i as int + 1);
                        lemma_forest_items_prefix(children@, i as int + 1);
                        assert(forest_size(next) == forest_size(pre) + tree_size(children@[i as int]));
                        assert(forest_items(next) == forest_items(pre) + tree_items(
                            children@[i as int],
                        ));
                        assert(decreases_to!(*region => children@[i as int]));
                    }
                    let c = self.flatten_region(&children[i], node_index);
                    child_indices.push(c);
                    proof {
                        let f = flat_forest(next, base as u64, base + 1, cbase, ibase);
                        assert(self.regions@ =~= head + f.0);
                        assert(self.region_children@ =~= old_children + f.1);
                        assert(self.region_items@ =~= old_items + f.2);
                        assert(child_indices@ =~= child_roots(next, base + 1));
                    }
                    i = i + 1;
                }
                proof {
                    assert(children@.take(children@.len() as int) =~= children@);
                }
                let child_offset = self.region_children.len() as u64;
                let mut k: usize = 0;
                let ghost mid = self.region_children@;
                while k < child_indices.len()
                    invariant
                        0 <= k <= child_indices@.len(),
                        self.region_children@ == mid + child_indices@.take(k as int),
                        self.regions@ == head + flat_forest(
                            children@,
                            base as u64,
                            base + 1,
                            cbase,
                            ibase,
                        ).0,
                        self.region_items@ == old_items + flat_forest(
                            children@,
                            base as u64,
                            base + 1,
                            cbase,
                            ibase,
                        ).2,
                    decreases child_indices@.len() - k,
                {
                    self.region_children.push(child_indices[k]);
                    proof {
                        assert(child_indices@.take(k as int + 1) =~= child_indices@.take(
                            k as int,
                        ).push(child_indices@[k as int]));
                    }
                    k = k + 1;
                }
                proof {
                    assert(child_indices@.take(child_indices@.len() as int) =~= child_indices@);
                }
                let flags = match axis {
                    CutAxis::Horizontal => LITEPARSE_PROJECTED_REGION_FLAG_SPLIT
                        | LITEPARSE_PROJECTED_REGION_FLAG_HORIZONTAL,
                    CutAxis::Vertical => LITEPARSE_PROJECTED_REGION_FLAG_SPLIT
                        | LITEPARSE_PROJECTED_REGION_FLAG_VERTICAL,
                };
                self.regions.set(
                    node_index as usize,
                    LiteParseProjectedRegion {
                        bbox: region.bbox,
                        parent_index,
                        child_offset,
                        child_count: child_indices.len() as u64,
                        item_offset: item_offset as u64,
                        item_count: (self.region_items.len() - item_offset) as u64,
                        flags,
                        reserved: 0,
                    },
                );
                proof {
                    let t = flat_tree(*region, parent_index, base, cbase, ibase);
                    assert(self.regions@ =~= old_regions + t.0);
                    assert(self.region_children@ =~= old_children + t.1);
                    assert(self.region_items@ =~= old_items + t.2);
                }
                node_index
            },
        }
    }
}

} // verus!

verus! {

/// `cond`'s bit, or nothing.
pub open spec fn bit_if(cond: bool, bit: u32) -> u32 {
    if cond {
        bit
    } else {
        0
    }
}

pub open spec fn layout_flags_spec(
    metadata_enabled: bool,
    has_words: bool,
    has_char_codes: bool,
    has_regions: bool,
) -> u32 {
    LITEPARSE_PROJECTED_LAYOUT_FLAG_SOURCE_PROVENANCE_UNAVAILABLE
        | LITEPARSE_PROJECTED_LAYOUT_FLAG_BLOCK_ASSOCIATIONS_UNAVAILABLE
        | LITEPARSE_PROJECTED_LAYOUT_FLAG_WORDS_SOURCE_COORDINATES | bit_if(
        metadata_enabled,
        LITEPARSE_PROJECTED_LAYOUT_FLAG_RICH_METADATA,
    ) | bit_if(has_words, LITEPARSE_PROJECTED_LAYOUT_FLAG_WORDS) | bit_if(
        has_char_codes,
        LITEPARSE_PROJECTED_LAYOUT_FLAG_CHAR_CODES,
    ) | bit_if(has_regions, LITEPARSE_PROJECTED_LAYOUT_FLAG_REGION_TREE)
}

/// Page and snapshot flags: provenance, block associations and word
/// coordinates are always reported unavailable or source-space; the rest
/// say what is present.
pub fn layout_flags(metadata_enabled: bool, has_words: bool, has_char_codes: bool, has_regions: bool) -> (f: u32)
    ensures
        f == layout_flags_spec(metadata_enabled, has_words, has_char_codes, has_regions),
{
    LITEPARSE_PROJECTED_LAYOUT_FLAG_SOURCE_PROVENANCE_UNAVAILABLE
        | LITEPARSE_PROJECTED_LAYOUT_FLAG_BLOCK_ASSOCIATIONS_UNAVAILABLE
        | LITEPARSE_PROJECTED_LAYOUT_FLAG_WORDS_SOURCE_COORDINATES | (if metadata_enabled {
        LITEPARSE_PROJECTED_LAYOUT_FLAG_RICH_METADATA
    } else {
        0
    }) | (if has_words {
        LITEPARSE_PROJECTED_LAYOUT_FLAG_WORDS
    } else {
        0
    }) | (if has_char_codes {
        LITEPARSE_PROJECTED_LAYOUT_FLAG_CHAR_CODES
    } else {
        0
    }) | (if has_regions {
        LITEPARSE_PROJECTED_LAYOUT_FLAG_REGION_TREE
    } else {
        0
    })
}

/// A word box in top-left-origin 72-DPI page space.
pub struct WordBox {
    pub text: String,
    pub x: u32,
    pub y: u32,
    pub width: u32,
    pub height: u32,
}

/// The rich metadata of a text run; reported only when metadata was
/// requested.
pub struct TextMetadata {
    pub font_height: Option<u32>,
    pub font_ascent: Option<u32>,
    pub font_descent: Option<u32>,
    pub font_weight: Option<i32>,
    pub text_width: Option<u32>,
    pub font_is_buggy: Option<bool>,
    pub mcid: Option<i32>,
    pub trailing_space_generated: Option<bool>,
    /// ARGB hex strings such as "ff000000".
    pub fill_color: Option<String>,
    pub stroke_color: Option<String>,
    /// Raw content-stream character codes.
    pub char_codes: Option<Vec<u32>>,
}

impl TextMetadata {
    pub open spec fn absent() -> TextMetadata {
        TextMetadata {
            font_height: None,
            font_ascent: None,
            font_descent: None,
            font_weight: None,
            text_width: None,
            font_is_buggy: None,
            mcid: None,
            trailing_space_generated: None,
            fill_color: None,
            stroke_color: None,
            char_codes: None,
        }
    }

    pub fn none() -> (m: TextMetadata)
        ensures
            m == TextMetadata::absent(),
    {
        TextMetadata {
            font_height: None,
            font_ascent: None,
            font_descent: None,
            font_weight: None,
            text_width: None,
            font_is_buggy: None,
            mcid: None,
            trailing_space_generated: None,
            fill_color: None,
            stroke_color: None,
            char_codes: None,
        }
    }
}

/// One text run of a projected line.
pub struct ProjectedSpan {
    pub text: String,
    pub font_name: Option<String>,
    pub link: Option<String>,
    pub x: u32,
    pub y: u32,
    pub width: u32,
    pub height: u32,
    pub rotation: u32,
    pub font_size: Option<u32>,
    pub confidence: Option<u32>,
    pub font_flags: Option<i32>,
    pub strike: bool,
    pub has_unicode_map_error: bool,
    pub words: Vec<WordBox>,
    pub metadata: TextMetadata,
}

/// How a projected line is anchored.
#[derive(Clone, Copy, Debug, PartialEq, Eq, Structural)]
pub enum Anchor {
    Left,
    Right,
    Center,
    Floating,
}

pub open spec fn anchor_code(a: Anchor) -> u32 {
    match a {
        Anchor::Left => LITEPARSE_PROJECTED_ANCHOR_LEFT,
        Anchor::Right => LITEPARSE_PROJECTED_ANCHOR_RIGHT,
        Anchor::Center => LITEPARSE_PROJECTED_ANCHOR_CENTER,
        Anchor::Floating => LITEPARSE_PROJECTED_ANCHOR_FLOATING,
    }
}

pub fn anchor_value(anchor: Anchor) -> (v: u32)
    ensures
        v == anchor_code(anchor),
{
    match anchor {
        Anchor::Left => LITEPARSE_PROJECTED_ANCHOR_LEFT,
        Anchor::Right => LITEPARSE_PROJECTED_ANCHOR_RIGHT,
        Anchor::Center => LITEPARSE_PROJECTED_ANCHOR_CENTER,
        Anchor::Floating => LITEPARSE_PROJECTED_ANCHOR_FLOATING,
    }
}

/// One projected line.
pub struct ProjectedLine {
    pub text: String,
    pub dominant_font_name: Option<String>,
    pub bbox: LiteParseRect,
    pub indent_x: u32,
    pub dominant_font_size: u32,
    pub heading_font_size: Option<u32>,
    pub mcid: Option<i32>,
    pub anchor: Anchor,
    pub all_bold: bool,
    pub all_italic: bool,
    pub all_mono: bool,
    pub all_strike: bool,
    pub font_size_is_estimated: bool,
    pub rtl: bool,
    pub in_figure: bool,
    /// Child positions from the region tree's root down to this line's leaf.
    pub region_path: Vec<u16>,
    pub spans: Vec<ProjectedSpan>,
}

/// One parsed page, as the projected layout reads it.
pub struct ParsedPage {
    pub page_number: usize,
    pub page_width: u32,
    pub page_height: u32,
    pub projected_lines: Vec<ProjectedLine>,
    pub regions: Region<LiteParseRect>,
}

pub open spec fn opt_str(s: Option<String>) -> Option<Seq<char>> {
    match s {
        Some(t) => Some(t@),
        None => None,
    }
}

pub open spec fn or_zero<T>(o: Option<T>, zero: T) -> T {
    match o {
        Some(v) => v,
        None => zero,
    }
}

/// The metadata a span reports.
pub open spec fn metadata_of(s: ProjectedSpan, enabled: bool) -> TextMetadata {
    if enabled {
        s.metadata
    } else {
        TextMetadata::absent()
    }
}

/// The character codes a span contributes.
pub open spec fn codes_of(s: ProjectedSpan, enabled: bool) -> Seq<u32> {
    match metadata_of(s, enabled).char_codes {
        Some(v) => v@,
        None => Seq::empty(),
    }
}

pub open spec fn word_record(w: WordBox) -> LiteParseProjectedWord {
    LiteParseProjectedWord {
        text: bytes_of_len(utf8_len(w.text@)),
        x: w.x,
        y: w.y,
        width: w.width,
        height: w.height,
    }
}

pub open spec fn span_flags_with(
    s: ProjectedSpan,
    m: TextMetadata,
    has_codes: bool,
    has_words: bool,
) -> u32 {
    bit_if(s.font_size is Some, LITEPARSE_PROJECTED_SPAN_FLAG_HAS_FONT_SIZE) | bit_if(
        s.confidence is Some,
        LITEPARSE_PROJECTED_SPAN_FLAG_HAS_CONFIDENCE,
    ) | bit_if(s.strike, LITEPARSE_PROJECTED_SPAN_FLAG_STRIKE) | bit_if(
        s.has_unicode_map_error,
        LITEPARSE_PROJECTED_SPAN_FLAG_UNICODE_MAP_ERROR,
    ) | bit_if(s.font_flags is Some, LITEPARSE_PROJECTED_SPAN_FLAG_HAS_FONT_FLAGS) | bit_if(
        m.font_height is Some,
        LITEPARSE_PROJECTED_SPAN_FLAG_HAS_FONT_HEIGHT,
    ) | bit_if(m.font_ascent is Some, LITEPARSE_PROJECTED_SPAN_FLAG_HAS_FONT_ASCENT) | bit_if(
        m.font_descent is Some,
        LITEPARSE_PROJECTED_SPAN_FLAG_HAS_FONT_DESCENT,
    ) | bit_if(m.font_weight is Some, LITEPARSE_PROJECTED_SPAN_FLAG_HAS_FONT_WEIGHT) | bit_if(
        m.text_width is Some,
        LITEPARSE_PROJECTED_SPAN_FLAG_HAS_TEXT_WIDTH,
    ) | bit_if(m.font_is_buggy == Some(true), LITEPARSE_PROJECTED_SPAN_FLAG_FONT_IS_BUGGY)
        | bit_if(m.mcid is Some, LITEPARSE_PROJECTED_SPAN_FLAG_HAS_MCID) | bit_if(
        m.trailing_space_generated == Some(true),
        LITEPARSE_PROJECTED_SPAN_FLAG_TRAILING_SPACE_GENERATED,
    ) | bit_if(has_codes, LITEPARSE_PROJECTED_SPAN_FLAG_HAS_CHAR_CODES) | bit_if(
        has_words,
        LITEPARSE_PROJECTED_SPAN_FLAG_HAS_WORDS,
    ) | bit_if(s.font_name is Some, LITEPARSE_PROJECTED_SPAN_FLAG_HAS_FONT_NAME) | bit_if(
        s.link is Some,
        LITEPARSE_PROJECTED_SPAN_FLAG_HAS_LINK,
    ) | bit_if(m.fill_color is Some, LITEPARSE_PROJECTED_SPAN_FLAG_HAS_FILL_COLOR) | bit_if(
        m.stroke_color is Some,
        LITEPARSE_PROJECTED_SPAN_FLAG_HAS_STROKE_COLOR,
    )
}

/// A span's flags: what it has, and what its metadata has.
pub open spec fn span_flags(s: ProjectedSpan, enabled: bool) -> u32 {
    span_flags_with(
        s,
        metadata_of(s, enabled),
        codes_of(s, enabled).len() > 0,
        s.words@.len() > 0,
    )
}

/// The record of a span whose words start at `word_offset` and whose codes
/// start at `code_offset`, addresses forgotten.
pub open spec fn span_record(
    s: ProjectedSpan,
    enabled: bool,
    word_offset: nat,
    code_offset: nat,
) -> LiteParseProjectedSpan {
    let m = metadata_of(s, enabled);
    LiteParseProjectedSpan {
        text: bytes_of_len(utf8_len(s.text@)),
        font_name: bytes_of_len(opt_len(opt_str(s.font_name))),
        link: bytes_of_len(opt_len(opt_str(s.link))),
        fill_color: bytes_of_len(opt_len(opt_str(m.fill_color))),
        stroke_color: bytes_of_len(opt_len(opt_str(m.stroke_color))),
        x: s.x,
        y: s.y,
        width: s.width,
        height: s.height,
        rotation: s.rotation,
        font_size: or_zero(s.font_size, 0u32),
        confidence: or_zero(s.confidence, 0u32),
        font_flags: or_zero(s.font_flags, 0i32),
        font_height: or_zero(m.font_height, 0u32),
        font_ascent: or_zero(m.font_ascent, 0u32),
        font_descent: or_zero(m.font_descent, 0u32),
        font_weight: or_zero(m.font_weight, 0i32),
        text_width: or_zero(m.text_width, 0u32),
        mcid: or_zero(m.mcid, 0i32),
        char_code_offset: code_offset as u64,
        char_code_count: codes_of(s, enabled).len() as u64,
        word_offset: word_offset as u64,
        word_count: s.words@.len() as u64,
        flags: span_flags(s, enabled),
    }
}

pub open spec fn line_flags(l: ProjectedLine) -> u32 {
    bit_if(l.heading_font_size is Some, LITEPARSE_PROJECTED_LINE_FLAG_HAS_HEADING_FONT_SIZE)
        | bit_if(l.dominant_font_name is Some, LITEPARSE_PROJECTED_LINE_FLAG_HAS_DOMINANT_FONT_NAME)
        | bit_if(l.mcid is Some, LITEPARSE_PROJECTED_LINE_FLAG_HAS_MCID) | bit_if(
        l.all_bold,
        LITEPARSE_PROJECTED_LINE_FLAG_ALL_BOLD,
    ) | bit_if(l.all_italic, LITEPARSE_PROJECTED_LINE_FLAG_ALL_ITALIC) | bit_if(
        l.all_mono,
        LITEPARSE_PROJECTED_LINE_FLAG_ALL_MONO,
    ) | bit_if(l.all_strike, LITEPARSE_PROJECTED_LINE_FLAG_ALL_STRIKE) | bit_if(
        l.font_size_is_estimated,
        LITEPARSE_PROJECTED_LINE_FLAG_FONT_SIZE_ESTIMATED,
    ) | bit_if(l.rtl, LITEPARSE_PROJECTED_LINE_FLAG_RTL) | bit_if(
        l.in_figure,
        LITEPARSE_PROJECTED_LINE_FLAG_IN_FIGURE,
    )
}

pub open spec fn line_record(
    l: ProjectedLine,
    span_offset: nat,
    span_count: nat,
    path_offset: nat,
) -> LiteParseProjectedLine {
    LiteParseProjectedLine {
        text: bytes_of_len(utf8_len(l.text@)),
        dominant_font_name: bytes_of_len(opt_len(opt_str(l.dominant_font_name))),
        bbox: l.bbox,
        indent_x: l.indent_x,
        dominant_font_size: l.dominant_font_size,
        heading_font_size: or_zero(l.heading_font_size, 0u32),
        mcid: or_zero(l.mcid, 0i32),
        anchor: anchor_code(l.anchor),
        flags: line_flags(l),
        span_offset: span_offset as u64,
        span_count: span_count as u64,
        region_path_offset: path_offset as u64,
        region_path_count: l.region_path@.len() as u64,
    }
}

pub open spec fn erase_word(w: LiteParseProjectedWord) -> LiteParseProjectedWord {
    LiteParseProjectedWord { text: erase(w.text), ..w }
}

pub open spec fn erase_span(s: LiteParseProjectedSpan) -> LiteParseProjectedSpan {
    LiteParseProjectedSpan {
        text: erase(s.text),
        font_name: erase(s.font_name),
        link: erase(s.link),
        fill_color: erase(s.fill_color),
        stroke_color: erase(s.stroke_color),
        ..s
    }
}

pub open spec fn erase_line(l: LiteParseProjectedLine) -> LiteParseProjectedLine {
    LiteParseProjectedLine {
        text: erase(l.text),
        dominant_font_name: erase(l.dominant_font_name),
        ..l
    }
}

/// The arrays of a snapshot, with every byte view's address forgotten.
#[verifier::ext_equal]
pub struct LayoutView {
    pub pages: Seq<LiteParseProjectedLayoutPage>,
    pub lines: Seq<LiteParseProjectedLine>,
    pub spans: Seq<LiteParseProjectedSpan>,
    pub words: Seq<LiteParseProjectedWord>,
    pub char_codes: Seq<u32>,
    pub region_paths: Seq<u16>,
    pub regions: Seq<LiteParseProjectedRegion>,
    pub region_items: Seq<u64>,
    pub region_children: Seq<u64>,
}

pub open spec fn empty_view() -> LayoutView {
    LayoutView {
        pages: Seq::empty(),
        lines: Seq::empty(),
        spans: Seq::empty(),
        words: Seq::empty(),
        char_codes: Seq::empty(),
        region_paths: Seq::empty(),
        regions: Seq::empty(),
        region_items: Seq::empty(),
        region_children: Seq::empty(),
    }
}

/// The view with the records of `ws` appended to its words.
pub open spec fn with_words(v: LayoutView, ws: Seq<WordBox>) -> LayoutView {
    LayoutView { words: v.words + ws.map_values(|w: WordBox| word_record(w)), ..v }
}

/// Packing one span: its words and codes are appended, then its record.
pub open spec fn span_step(v: LayoutView, s: ProjectedSpan, enabled: bool) -> LayoutView {
    LayoutView {
        words: v.words + s.words@.map_values(|w: WordBox| word_record(w)),
        char_codes: v.char_codes + codes_of(s, enabled),
        spans: v.spans.push(span_record(s, enabled, v.words.len(), v.char_codes.len())),
        ..v
    }
}

pub open spec fn spans_step(v: LayoutView, ss: Seq<ProjectedSpan>, enabled: bool) -> LayoutView
    decreases ss.len(),
{
    if ss.len() == 0 {
        v
    } else {
        span_step(spans_step(v, ss.drop_last(), enabled), ss.last(), enabled)
    }
}

/// Packing one line: its spans, then its region path, then its record.
pub open spec fn line_step(v: LayoutView, l: ProjectedLine, enabled: bool) -> LayoutView {
    let v1 = spans_step(v, l.spans@, enabled);
    LayoutView {
        region_paths: v1.region_paths + l.region_path@,
        lines: v1.lines.push(
            line_record(
                l,
                v.spans.len(),
                (v1.spans.len() - v.spans.len()) as nat,
                v1.region_paths.len(),
            ),
        ),
        ..v1
    }
}

pub open spec fn lines_step(v: LayoutView, ls: Seq<ProjectedLine>, enabled: bool) -> LayoutView
    decreases ls.len(),
{
    if ls.len() == 0 {
        v
    } else {
        line_step(lines_step(v, ls.drop_last(), enabled), ls.last(), enabled)
    }
}

pub open spec fn count(after: nat, before: nat) -> u64 {
    (after - before) as u64
}

/// The record of a page whose arrays started at the lengths of `v0` and
/// ended at those of `v1`.
pub open spec fn page_record(
    p: ParsedPage,
    enabled: bool,
    v0: LayoutView,
    v1: LayoutView,
) -> LiteParseProjectedLayoutPage {
    LiteParseProjectedLayoutPage {
        page_number: p.page_number as u32,
        coordinate_space: LITEPARSE_PROJECTED_LAYOUT_COORDINATES,
        flags: layout_flags_spec(
            enabled,
            v1.words.len() > v0.words.len(),
            v1.char_codes.len() > v0.char_codes.len(),
            v1.regions.len() > v0.regions.len(),
        ),
        width: p.page_width,
        height: p.page_height,
        line_offset: v0.lines.len() as u64,
        line_count: count(v1.lines.len(), v0.lines.len()),
        span_offset: v0.spans.len() as u64,
        span_count: count(v1.spans.len(), v0.spans.len()),
        word_offset: v0.words.len() as u64,
        word_count: count(v1.words.len(), v0.words.len()),
        char_code_offset: v0.char_codes.len() as u64,
        char_code_count: count(v1.char_codes.len(), v0.char_codes.len()),
        region_path_offset: v0.region_paths.len() as u64,
        region_path_count: count(v1.region_paths.len(), v0.region_paths.len()),
        region_offset: v0.regions.len() as u64,
        region_count: count(v1.regions.len(), v0.regions.len()),
        region_item_offset: v0.region_items.len() as u64,
        region_item_count: count(v1.region_items.len(), v0.region_items.len()),
        region_child_offset: v0.region_children.len() as u64,
        region_child_count: count(v1.region_children.len(), v0.region_children.len()),
    }
}

/// Packing one page: its region tree, its lines, then its record.
pub open spec fn page_step(v: LayoutView, p: ParsedPage, enabled: bool) -> LayoutView {
    let t = flat_tree(
        p.regions,
        LITEPARSE_PROJECTED_REGION_NO_PARENT,
        v.regions.len(),
        v.region_children.len(),
        v.region_items.len(),
    );
    let v1 = LayoutView {
        regions: v.regions + t.0,
        region_children: v.region_children + t.1,
        region_items: v.region_items + t.2,
        ..v
    };
    let v2 = lines_step(v1, p.projected_lines@, enabled);
    LayoutView { pages: v2.pages.push(page_record(p, enabled, v, v2)), ..v2 }
}

pub open spec fn pages_step(v: LayoutView, ps: Seq<ParsedPage>, enabled: bool) -> LayoutView
    decreases ps.len(),
{
    if ps.len() == 0 {
        v
    } else {
        page_step(pages_step(v, ps.drop_last(), enabled), ps.last(), enabled)
    }
}

/// The snapshot record of a finished view.
pub open spec fn snapshot_of(v: LayoutView, enabled: bool) -> LiteParseProjectedLayoutSnapshot {
    LiteParseProjectedLayoutSnapshot {
        version: LITEPARSE_PROJECTED_LAYOUT_SNAPSHOT_VERSION,
        coordinate_space: LITEPARSE_PROJECTED_LAYOUT_COORDINATES,
        flags: layout_flags_spec(
            enabled,
            v.words.len() > 0,
            v.char_codes.len() > 0,
            v.regions.len() > 0,
        ),
        reserved: 0,
        page_count: v.pages.len() as u64,
        line_count: v.lines.len() as u64,
        span_count: v.spans.len() as u64,
        word_count: v.words.len() as u64,
        char_code_count: v.char_codes.len() as u64,
        region_path_count: v.region_paths.len() as u64,
        region_count: v.regions.len() as u64,
        region_item_count: v.region_items.len() as u64,
        region_child_count: v.region_children.len() as u64,
    }
}

impl ProjectedLayoutPacked {
    /// The arrays, byte-view addresses forgotten.
    pub open spec fn view_of(&self) -> LayoutView {
        LayoutView {
            pages: self.pages@,
            lines: self.lines@.map_values(|l: LiteParseProjectedLine| erase_line(l)),
            spans: self.spans@.map_values(|s: LiteParseProjectedSpan| erase_span(s)),
            words: self.words@.map_values(|w: LiteParseProjectedWord| erase_word(w)),
            char_codes: self.char_codes@,
            region_paths: self.region_paths@,
            regions: self.tree.regions@,
            region_items: self.tree.region_items@,
            region_children: self.tree.region_children@,
        }
    }
}

} // verus!

verus! {

/// Append a copy of `src` to `dst`.
pub fn append_copies<T: Copy>(dst: &mut Vec<T>, src: &[T])
    ensures
        final(dst)@ == old(dst)@ + src@,
{
    let ghost start = dst@;
    let mut i: usize = 0;
    while i < src.len()
        invariant
            0 <= i <= src@.len(),
            dst@ == start + src@.take(i as int),
        decreases src@.len() - i,
    {
        dst.push(src[i]);
        i = i + 1;
        assert(dst@ =~= start + src@.take(i as int));
    }
    assert(src@.take(src@.len() as int) =~= src@);
}

fn string_bytes(s: &String) -> (b: LiteParseLayoutBytes)
    ensures
        erase(b) == bytes_of_len(utf8_len(s@)),
{
    fixed_bytes(s.as_str().as_bytes())
}

fn optional_string_bytes(s: &Option<String>) -> (b: LiteParseLayoutBytes)
    ensures
        erase(b) == bytes_of_len(opt_len(opt_str(*s))),
{
    match s {
        Some(t) => fixed_bytes(t.as_str().as_bytes()),
        None => LiteParseLayoutBytes { ptr: 0, len: 0 },
    }
}

impl ProjectedLayoutPacked {
    /// Empty arrays and a zero snapshot.
    pub fn new() -> (p: Self)
        ensures
            p.view_of() == empty_view(),
    {
        let p = ProjectedLayoutPacked {
            snapshot: LiteParseProjectedLayoutSnapshot {
                version: 0,
                coordinate_space: 0,
                flags: 0,
                reserved: 0,
                page_count: 0,
                line_count: 0,
                span_count: 0,
                word_count: 0,
                char_code_count: 0,
                region_path_count: 0,
                region_count: 0,
                region_item_count: 0,
                region_child_count: 0,
            },
            pages: Vec::new(),
            lines: Vec::new(),
            spans: Vec::new(),
            words: Vec::new(),
            char_codes: Vec::new(),
            region_paths: Vec::new(),
            tree: RegionArrays {
                regions: Vec::new(),
                region_items: Vec::new(),
                region_children: Vec::new(),
            },
        };
        assert(p.view_of() =~= empty_view());
        p
    }

    /// Append the records of `words`.
    #[verifier::loop_isolation(false)]
    fn push_words(&mut self, words: &Vec<WordBox>)
        ensures
            final(self).view_of() == with_words(old(self).view_of(), words@),
    {
        let ghost v = self.view_of();
        let mut k: usize = 0;
        while k < words.len()
            invariant
                0 <= k <= words@.len(),
                self.words@.map_values(|w: LiteParseProjectedWord| erase_word(w)) == v.words
                    + words@.take(k as int).map_values(|w: WordBox| word_record(w)),
                self.lines@ == old(self).lines@,
                self.spans@ == old(self).spans@,
                self.char_codes@ == old(self).char_codes@,
                self.pages@ == old(self).pages@,
                self.region_paths@ == old(self).region_paths@,
                self.tree == old(self).tree,
            decreases words@.len() - k,
        {
            let word = &words[k];
            let record = LiteParseProjectedWord {
                text: string_bytes(&word.text),
                x: word.x,
                y: word.y,
                width: word.width,
                height: word.height,
            };
            let ghost before = self.words@;
            self.words.push(record);
            proof {
                assert(erase_word(record) == word_record(words@[k as int]));
                assert(self.words@.map_values(|w: LiteParseProjectedWord| erase_word(w))
                    =~= before.map_values(|w: LiteParseProjectedWord| erase_word(w)).push(
                    erase_word(record),
                ));
                assert(words@.take(k as int + 1).map_values(|w: WordBox| word_record(w))
                    =~= words@.take(k as int).map_values(|w: WordBox| word_record(w)).push(
                    word_record(words@[k as int]),
                ));
            }
            k = k + 1;
        }
        assert(words@.take(words@.len() as int) =~= words@);
        assert(self.view_of() =~= with_words(v, words@));
    }

    /// Pack one span: its words, its codes, then its record.
    fn push_span(&mut self, span: &ProjectedSpan, enabled: bool)
        ensures
            final(self).view_of() == span_step(old(self).view_of(), *span, enabled),
    {
        let ghost v = self.view_of();
        let span_word_offset = self.words.len();
        self.push_words(&span.words);
        assert(self.view_of().words.len() == self.words@.len());
        assert(v.words.len() == span_word_offset);
        assert(self.words@.len() == span_word_offset + span.words@.len());
        let none = TextMetadata::none();
        let metadata = if enabled {
            &span.metadata
        } else {
            &none
        };
        assert(*metadata == metadata_of(*span, enabled));
        let span_char_code_offset = self.char_codes.len();
        match &metadata.char_codes {
            Some(codes) => append_copies(&mut self.char_codes, codes.as_slice()),
            None => {},
        }
        assert(self.char_codes@ =~= v.char_codes + codes_of(*span, enabled));
        assert(self.char_codes@.len() == span_char_code_offset + codes_of(*span, enabled).len());
        let has_codes = self.char_codes.len() > span_char_code_offset;
        let has_words = self.words.len() > span_word_offset;
        let record = span_record_of(
            span,
            metadata,
            span_word_offset as u64,
            span_char_code_offset as u64,
            (self.words.len() - span_word_offset) as u64,
            (self.char_codes.len() - span_char_code_offset) as u64,
            has_codes,
            has_words,
        );
        let ghost before = self.spans@;
        self.spans.push(record);
        proof {
            assert(erase_span(record) == span_record(
                *span,
                enabled,
                v.words.len(),
                v.char_codes.len(),
            ));
            assert(self.spans@.map_values(|s: LiteParseProjectedSpan| erase_span(s))
                =~= before.map_values(|s: LiteParseProjectedSpan| erase_span(s)).push(
                erase_span(record),
            ));
            assert(self.view_of() =~= span_step(v, *span, enabled));
        }
    }
}

fn span_flag_bits(span: &ProjectedSpan, m: &TextMetadata, has_codes: bool, has_words: bool) -> (f: u32)
    ensures
        f == span_flags_with(*span, *m, has_codes, has_words),
{
    (if span.font_size.is_some() {
        LITEPARSE_PROJECTED_SPAN_FLAG_HAS_FONT_SIZE
    } else {
        0
    }) | (if span.confidence.is_some() {
        LITEPARSE_PROJECTED_SPAN_FLAG_HAS_CONFIDENCE
    } else {
        0
    }) | (if span.strike {
        LITEPARSE_PROJECTED_SPAN_FLAG_STRIKE
    } else {
        0
    }) | (if span.has_unicode_map_error {
        LITEPARSE_PROJECTED_SPAN_FLAG_UNICODE_MAP_ERROR
    } else {
        0
    }) | (if span.font_flags.is_some() {
        LITEPARSE_PROJECTED_SPAN_FLAG_HAS_FONT_FLAGS
    } else {
        0
    }) | (if m.font_height.is_some() {
        LITEPARSE_PROJECTED_SPAN_FLAG_HAS_FONT_HEIGHT
    } else {
        0
    }) | (if m.font_ascent.is_some() {
        LITEPARSE_PROJECTED_SPAN_FLAG_HAS_FONT_ASCENT
    } else {
        0
    }) | (if m.font_descent.is_some() {
        LITEPARSE_PROJECTED_SPAN_FLAG_HAS_FONT_DESCENT
    } else {
        0
    }) | (if m.font_weight.is_some() {
        LITEPARSE_PROJECTED_SPAN_FLAG_HAS_FONT_WEIGHT
    } else {
        0
    }) | (if m.text_width.is_some() {
        LITEPARSE_PROJECTED_SPAN_FLAG_HAS_TEXT_WIDTH
    } else {
        0
    }) | (if m.font_is_buggy == Some(true) {
        LITEPARSE_PROJECTED_SPAN_FLAG_FONT_IS_BUGGY
    } else {
        0
    }) | (if m.mcid.is_some() {
        LITEPARSE_PROJECTED_SPAN_FLAG_HAS_MCID
    } else {
        0
    }) | (if m.trailing_space_generated == Some(true) {
        LITEPARSE_PROJECTED_SPAN_FLAG_TRAILING_SPACE_GENERATED
    } else {
        0
    }) | (if has_codes {
        LITEPARSE_PROJECTED_SPAN_FLAG_HAS_CHAR_CODES
    } else {
        0
    }) | (if has_words {
        LITEPARSE_PROJECTED_SPAN_FLAG_HAS_WORDS
    } else {
        0
    }) | (if span.font_name.is_some() {
        LITEPARSE_PROJECTED_SPAN_FLAG_HAS_FONT_NAME
    } else {
        0
    }) | (if span.link.is_some() {
        LITEPARSE_PROJECTED_SPAN_FLAG_HAS_LINK
    } else {
        0
    }) | (if m.fill_color.is_some() {
        LITEPARSE_PROJECTED_SPAN_FLAG_HAS_FILL_COLOR
    } else {
        0
    }) | (if m.stroke_color.is_some() {
        LITEPARSE_PROJECTED_SPAN_FLAG_HAS_STROKE_COLOR
    } else {
        0
    })
}

fn u32_or_zero(v: Option<u32>) -> (r: u32)
    ensures
        r == or_zero(v, 0u32),
{
    match v {
        Some(x) => x,
        None => 0,
    }
}

fn i32_or_zero(v: Option<i32>) -> (r: i32)
    ensures
        r == or_zero(v, 0i32),
{
    match v {
        Some(x) => x,
        None => 0,
    }
}

fn span_record_of(
    span: &ProjectedSpan,
    m: &TextMetadata,
    word_offset: u64,
    code_offset: u64,
    word_count: u64,
    code_count: u64,
    has_codes: bool,
    has_words: bool,
) -> (r: LiteParseProjectedSpan)
    ensures
        erase_span(r) == (LiteParseProjectedSpan {
            text: bytes_of_len(utf8_len(span.text@)),
            font_name: bytes_of_len(opt_len(opt_str(span.font_name))),
            link: bytes_of_len(opt_len(opt_str(span.link))),
            fill_color: bytes_of_len(opt_len(opt_str(m.fill_color))),
            stroke_color: bytes_of_len(opt_len(opt_str(m.stroke_color))),
            x: span.x,
            y: span.y,
            width: span.width,
            height: span.height,
            rotation: span.rotation,
            font_size: or_zero(span.font_size, 0u32),
            confidence: or_zero(span.confidence, 0u32),
            font_flags: or_zero(span.font_flags, 0i32),
            font_height: or_zero(m.font_height, 0u32),
            font_ascent: or_zero(m.font_ascent, 0u32),
            font_descent: or_zero(m.font_descent, 0u32),
            font_weight: or_zero(m.font_weight, 0i32),
            text_width: or_zero(m.text_width, 0u32),
            mcid: or_zero(m.mcid, 0i32),
            char_code_offset: code_offset,
            char_code_count: code_count,
            word_offset: word_offset,
            word_count: word_count,
            flags: span_flags_with(*span, *m, has_codes, has_words),
        }),
{
    LiteParseProjectedSpan {
        text: string_bytes(&span.text),
        font_name: optional_string_bytes(&span.font_name),
        link: optional_string_bytes(&span.link),
        fill_color: optional_string_bytes(&m.fill_color),
        stroke_color: optional_string_bytes(&m.stroke_color),
        x: span.x,
        y: span.y,
        width: span.width,
        height: span.height,
        rotation: span.rotation,
        font_size: u32_or_zero(span.font_size),
        confidence: u32_or_zero(span.confidence),
        font_flags: i32_or_zero(span.font_flags),
        font_height: u32_or_zero(m.font_height),
        font_ascent: u32_or_zero(m.font_ascent),
        font_descent: u32_or_zero(m.font_descent),
        font_weight: i32_or_zero(m.font_weight),
        text_width: u32_or_zero(m.text_width),
        mcid: i32_or_zero(m.mcid),
        char_code_offset: code_offset,
        char_code_count: code_count,
        word_offset,
        word_count,
        flags: span_flag_bits(span, m, has_codes, has_words),
    }
}

} // verus!

verus! {

proof fn lemma_spans_step_frame(v: LayoutView, ss: Seq<ProjectedSpan>, enabled: bool)
    ensures
        ({
            let r = spans_step(v, ss, enabled);
            &&& r.spans.len() == v.spans.len() + ss.len()
            &&& r.words.len() >= v.words.len()
            &&& r.char_codes.len() >= v.char_codes.len()
            &&& r.pages == v.pages
            &&& r.lines == v.lines
            &&& r.region_paths == v.region_paths
            &&& r.regions == v.regions
            &&& r.region_items == v.region_items
            &&& r.region_children == v.region_children
        }),
    decreases ss.len(),
{
    if ss.len() > 0 {
        lemma_spans_step_frame(v, ss.drop_last(), enabled);
    }
}

proof fn lemma_lines_step_frame(v: LayoutView, ls: Seq<ProjectedLine>, enabled: bool)
    ensures
        ({
            let r = lines_step(v, ls, enabled);
            &&& r.lines.len() == v.lines.len() + ls.len()
            &&& r.spans.len() >= v.spans.len()
            &&& r.words.len() >= v.words.len()
            &&& r.char_codes.len() >= v.char_codes.len()
            &&& r.region_paths.len() >= v.region_paths.len()
            &&& r.pages == v.pages
            &&& r.regions == v.regions
            &&& r.region_items == v.region_items
            &&& r.region_children == v.region_children
        }),
    decreases ls.len(),
{
    if ls.len() > 0 {
        lemma_lines_step_frame(v, ls.drop_last(), enabled);
        let w = lines_step(v, ls.drop_last(), enabled);
        lemma_spans_step_frame(w, ls.last().spans@, enabled);
    }
}

fn line_flag_bits(l: &ProjectedLine) -> (f: u32)
    ensures
        f == line_flags(*l),
{
    (if l.heading_font_size.is_some() {
        LITEPARSE_PROJECTED_LINE_FLAG_HAS_HEADING_FONT_SIZE
    } else {
        0
    }) | (if l.dominant_font_name.is_some() {
        LITEPARSE_PROJECTED_LINE_FLAG_HAS_DOMINANT_FONT_NAME
    } else {
        0
    }) | (if l.mcid.is_some() {
        LITEPARSE_PROJECTED_LINE_FLAG_HAS_MCID
    } else {
        0
    }) | (if l.all_bold {
        LITEPARSE_PROJECTED_LINE_FLAG_ALL_BOLD
    } else {
        0
    }) | (if l.all_italic {
        LITEPARSE_PROJECTED_LINE_FLAG_ALL_ITALIC
    } else {
        0
    }) | (if l.all_mono {
        LITEPARSE_PROJECTED_LINE_FLAG_ALL_MONO
    } else {
        0
    }) | (if l.all_strike {
        LITEPARSE_PROJECTED_LINE_FLAG_ALL_STRIKE
    } else {
        0
    }) | (if l.font_size_is_estimated {
        LITEPARSE_PROJECTED_LINE_FLAG_FONT_SIZE_ESTIMATED
    } else {
        0
    }) | (if l.rtl {
        LITEPARSE_PROJECTED_LINE_FLAG_RTL
    } else {
        0
    }) | (if l.in_figure {
        LITEPARSE_PROJECTED_LINE_FLAG_IN_FIGURE
    } else {
        0
    })
}

fn line_record_of(l: &ProjectedLine, span_offset: u64, span_count: u64, path_offset: u64) -> (r:
    LiteParseProjectedLine)
    ensures
        erase_line(r) == line_record(*l, span_offset as nat, span_count as nat, path_offset as nat),
{
    LiteParseProjectedLine {
        text: string_bytes(&l.text),
        dominant_font_name: optional_string_bytes(&l.dominant_font_name),
        bbox: l.bbox,
        indent_x: l.indent_x,
        dominant_font_size: l.dominant_font_size,
        heading_font_size: u32_or_zero(l.heading_font_size),
        mcid: i32_or_zero(l.mcid),
        anchor: anchor_value(l.anchor),
        flags: line_flag_bits(l),
        span_offset,
        span_count,
        region_path_offset: path_offset,
        region_path_count: l.region_path.len() as u64,
    }
}

impl ProjectedLayoutPacked {
    /// Pack one line: its spans, its region path, then its record.
    fn push_line(&mut self, line: &ProjectedLine, enabled: bool)
        ensures
            final(self).view_of() == line_step(old(self).view_of(), *line, enabled),
    {
        let ghost v = self.view_of();
        let line_span_offset = self.spans.len();
        let mut i: usize = 0;
        while i < line.spans.len()
            invariant
                0 <= i <= line.spans@.len(),
                self.view_of() == spans_step(v, line.spans@.take(i as int), enabled),
            decreases line.spans@.len() - i,
        {
            self.push_span(&line.spans[i], enabled);
            proof {
                assert(line.spans@.take(i as int + 1).drop_last() =~= line.spans@.take(i as int));
            }
            i = i + 1;
        }
        assert(line.spans@.take(line.spans@.len() as int) =~= line.spans@);
        let ghost v1 = self.view_of();
        proof {
            lemma_spans_step_frame(v, line.spans@, enabled);
        }
        assert(self.spans@.len() == v1.spans.len());
        assert(self.region_paths@ == v1.region_paths);
        let span_count = self.spans.len() - line_span_offset;
        let line_region_path_offset = self.region_paths.len();
        append_copies(&mut self.region_paths, line.region_path.as_slice());
        let record = line_record_of(
            line,
            line_span_offset as u64,
            span_count as u64,
            line_region_path_offset as u64,
        );
        let ghost before = self.lines@;
        self.lines.push(record);
        proof {
            assert(self.lines@.map_values(|l: LiteParseProjectedLine| erase_line(l))
                =~= before.map_values(|l: LiteParseProjectedLine| erase_line(l)).push(
                erase_line(record),
            ));
            assert(self.view_of() =~= line_step(v, *line, enabled));
        }
    }

    /// Pack one page: its region tree, its lines, then its record.
    fn push_page(&mut self, page: &ParsedPage, enabled: bool)
        requires
            page.page_number <= u32::MAX,
        ensures
            final(self).view_of() == page_step(old(self).view_of(), *page, enabled),
    {
        let ghost v = self.view_of();
        let line_offset = self.lines.len();
        let span_offset = self.spans.len();
        let word_offset = self.words.len();
        let char_code_offset = self.char_codes.len();
        let region_path_offset = self.region_paths.len();
        let region_offset = self.tree.regions.len();
        let region_item_offset = self.tree.region_items.len();
        let region_child_offset = self.tree.region_children.len();
        self.tree.flatten_region(&page.regions, LITEPARSE_PROJECTED_REGION_NO_PARENT);
        let ghost v1 = self.view_of();
        assert(v1 =~= LayoutView {
            regions: v.regions + flat_tree(
                page.regions,
                LITEPARSE_PROJECTED_REGION_NO_PARENT,
                v.regions.len(),
                v.region_children.len(),
                v.region_items.len(),
            ).0,
            region_children: v.region_children + flat_tree(
                page.regions,
                LITEPARSE_PROJECTED_REGION_NO_PARENT,
                v.regions.len(),
                v.region_children.len(),
                v.region_items.len(),
            ).1,
            region_items: v.region_items + flat_tree(
                page.regions,
                LITEPARSE_PROJECTED_REGION_NO_PARENT,
                v.regions.len(),
                v.region_children.len(),
                v.region_items.len(),
            ).2,
            ..v
        });
        let mut i: usize = 0;
        while i < page.projected_lines.len()
            invariant
                0 <= i <= page.projected_lines@.len(),
                self.view_of() == lines_step(v1, page.projected_lines@.take(i as int), enabled),
            decreases page.projected_lines@.len() - i,
        {
            self.push_line(&page.projected_lines[i], enabled);
            proof {
                assert(page.projected_lines@.take(i as int + 1).drop_last()
                    =~= page.projected_lines@.take(i as int));
            }
            i = i + 1;
        }
        assert(page.projected_lines@.take(page.projected_lines@.len() as int)
            =~= page.projected_lines@);
        let ghost v2 = self.view_of();
        proof {
            lemma_lines_step_frame(v1, page.projected_lines@, enabled);
            lemma_tree_lengths(
                page.regions,
                LITEPARSE_PROJECTED_REGION_NO_PARENT,
                v.regions.len(),
                v.region_children.len(),
                v.region_items.len(),
            );
        }
        assert(self.lines@.len() == v2.lines.len());
        assert(self.spans@.len() == v2.spans.len());
        assert(self.words@.len() == v2.words.len());
        let flags = layout_flags(
            enabled,
            self.words.len() > word_offset,
            self.char_codes.len() > char_code_offset,
            self.tree.regions.len() > region_offset,
        );
        let record = LiteParseProjectedLayoutPage {
            page_number: page.page_number as u32,
            coordinate_space: LITEPARSE_PROJECTED_LAYOUT_COORDINATES,
            flags,
            width: page.page_width,
            height: page.page_height,
            line_offset: line_offset as u64,
            line_count: (self.lines.len() - line_offset) as u64,
            span_offset: span_offset as u64,
            span_count: (self.spans.len() - span_offset) as u64,
            word_offset: word_offset as u64,
            word_count: (self.words.len() - word_offset) as u64,
            char_code_offset: char_code_offset as u64,
            char_code_count: (self.char_codes.len() - char_code_offset) as u64,
            region_path_offset: region_path_offset as u64,
            region_path_count: (self.region_paths.len() - region_path_offset) as u64,
            region_offset: region_offset as u64,
            region_count: (self.tree.regions.len() - region_offset) as u64,
            region_item_offset: region_item_offset as u64,
            region_item_count: (self.tree.region_items.len() - region_item_offset) as u64,
            region_child_offset: region_child_offset as u64,
            region_child_count: (self.tree.region_children.len() - region_child_offset) as u64,
        };
        self.pages.push(record);
        proof {
            assert(record == page_record(*page, enabled, v, v2));
            assert(self.view_of() =~= page_step(v, *page, enabled));
        }
    }

    /// Flatten `pages` into the snapshot arrays; `metadata_enabled` decides
    /// whether spans report their rich metadata and character codes.
    pub fn pack(pages: &[ParsedPage], metadata_enabled: bool) -> (p: Self)
        requires
            forall|i: int| 0 <= i < pages@.len() ==> (#[trigger] pages@[i]).page_number <= u32::MAX,
        ensures
            p.view_of() == pages_step(empty_view(), pages@, metadata_enabled),
            p.snapshot == snapshot_of(p.view_of(), metadata_enabled),
    {
        let mut packed = ProjectedLayoutPacked::new();
        let mut i: usize = 0;
        while i < pages.len()
            invariant
                0 <= i <= pages@.len(),
                forall|k: int| 0 <= k < pages@.len() ==> (#[trigger] pages@[k]).page_number
                    <= u32::MAX,
                packed.view_of() == pages_step(empty_view(), pages@.take(i as int), metadata_enabled),
            decreases pages@.len() - i,
        {
            packed.push_page(&pages[i], metadata_enabled);
            proof {
                assert(pages@.take(i as int + 1).drop_last() =~= pages@.take(i as int));
            }
            i = i + 1;
        }
        assert(pages@.take(pages@.len() as int) =~= pages@);
        let flags = layout_flags(
            metadata_enabled,
            !packed.words.is_empty(),
            !packed.char_codes.is_empty(),
            !packed.tree.regions.is_empty(),
        );
        packed.snapshot = LiteParseProjectedLayoutSnapshot {
            version: LITEPARSE_PROJECTED_LAYOUT_SNAPSHOT_VERSION,
            coordinate_space: LITEPARSE_PROJECTED_LAYOUT_COORDINATES,
            flags,
            reserved: 0,
            page_count: packed.pages.len() as u64,
            line_count: packed.lines.len() as u64,
            span_count: packed.spans.len() as u64,
            word_count: packed.words.len() as u64,
            char_code_count: packed.char_codes.len() as u64,
            region_path_count: packed.region_paths.len() as u64,
            region_count: packed.tree.regions.len() as u64,
            region_item_count: packed.tree.region_items.len() as u64,
            region_child_count: packed.tree.region_children.len() as u64,
        };
        packed
    }
}

} // verus!

verus! {

/// The offset and count that a page record gives for array `a`, the arrays
/// taken in the order lines, spans, words, character codes, region paths,
/// regions, region items, region children.
pub open spec fn range_of(p: LiteParseProjectedLayoutPage, a: int) -> (u64, u64) {
    if a == 0 {
        (p.line_offset, p.line_count)
    } else if a == 1 {
        (p.span_offset, p.span_count)
    } else if a == 2 {
        (p.word_offset, p.word_count)
    } else if a == 3 {
        (p.char_code_offset, p.char_code_count)
    } else if a == 4 {
        (p.region_path_offset, p.region_path_count)
    } else if a == 5 {
        (p.region_offset, p.region_count)
    } else if a == 6 {
        (p.region_item_offset, p.region_item_count)
    } else {
        (p.region_child_offset, p.region_child_count)
    }
}

/// The length of array `a` of a view, in the order of `range_of`.
pub open spec fn len_of(v: LayoutView, a: int) -> nat {
    if a == 0 {
        v.lines.len()
    } else if a == 1 {
        v.spans.len()
    } else if a == 2 {
        v.words.len()
    } else if a == 3 {
        v.char_codes.len()
    } else if a == 4 {
        v.region_paths.len()
    } else if a == 5 {
        v.regions.len()
    } else if a == 6 {
        v.region_items.len()
    } else {
        v.region_children.len()
    }
}

/// The page records cut array `a` into consecutive ranges: the first starts
/// at zero, each starts where the one before it ends, and the last ends at
/// the array's length (an array of a view without pages is empty).
pub open spec fn tiles(v: LayoutView, a: int) -> bool {
    let n = v.pages.len();
    if n == 0 {
        len_of(v, a) == 0
    } else {
        &&& range_of(v.pages[0], a).0 == 0
        &&& forall|k: int|
            0 < k < n ==> #[trigger] range_of(v.pages[k], a).0 == range_of(v.pages[k - 1], a).0
                + range_of(v.pages[k - 1], a).1
        &&& range_of(v.pages[n - 1], a).0 + range_of(v.pages[n - 1], a).1 == len_of(v, a)
    }
}

proof fn lemma_page_step_shape(v: LayoutView, p: ParsedPage, enabled: bool)
    ensures
        ({
            let r = page_step(v, p, enabled);
            &&& r.pages.len() == v.pages.len() + 1
            &&& r.pages.drop_last() == v.pages
            &&& forall|a: int| 0 <= a < 8 ==> len_of(v, a) <= #[trigger] len_of(r, a)
            &&& r.pages.last() == page_record(p, enabled, v, LayoutView { pages: v.pages, ..r })
            &&& r.regions.len() == v.regions.len() + tree_size(p.regions)
            &&& r.lines.len() == v.lines.len() + p.projected_lines@.len()
        }),
{
    let t = flat_tree(
        p.regions,
        LITEPARSE_PROJECTED_REGION_NO_PARENT,
        v.regions.len(),
        v.region_children.len(),
        v.region_items.len(),
    );
    lemma_tree_lengths(
        p.regions,
        LITEPARSE_PROJECTED_REGION_NO_PARENT,
        v.regions.len(),
        v.region_children.len(),
        v.region_items.len(),
    );
    let v1 = LayoutView {
        regions: v.regions + t.0,
        region_children: v.region_children + t.1,
        region_items: v.region_items + t.2,
        ..v
    };
    lemma_lines_step_frame(v1, p.projected_lines@, enabled);
    let v2 = lines_step(v1, p.projected_lines@, enabled);
    let r = page_step(v, p, enabled);
    assert(r.pages.drop_last() =~= v.pages);
    assert(LayoutView { pages: v.pages, ..r } == v2);
}

/// Packing pages tiles every array: the first page starts each array at
/// zero, each page starts where the one before it ended, and the last ends
/// at the array's length. Each page record carries its page's number and
/// line count and at least one region, so its regions flag is always set.
pub proof fn lemma_pages_tile(ps: Seq<ParsedPage>, enabled: bool)
    requires
        forall|a: int|
            0 <= a < 8 ==> #[trigger] len_of(pages_step(empty_view(), ps, enabled), a)
                <= u64::MAX,
    ensures
        ({
            let v = pages_step(empty_view(), ps, enabled);
            &&& v.pages.len() == ps.len()
            &&& forall|a: int| 0 <= a < 8 ==> #[trigger] tiles(v, a)
            &&& forall|k: int|
                0 <= k < ps.len() ==> (#[trigger] v.pages[k]).page_number == ps[k].page_number
                    as u32 && v.pages[k].coordinate_space == LITEPARSE_PROJECTED_LAYOUT_COORDINATES
                    && v.pages[k].line_count == ps[k].projected_lines@.len()
                    && v.pages[k].region_count >= 1 && v.pages[k].flags == layout_flags_spec(
                    enabled,
                    v.pages[k].word_count > 0,
                    v.pages[k].char_code_count > 0,
                    true,
                )
        }),
    decreases ps.len(),
{
    let v = pages_step(empty_view(), ps, enabled);
    if ps.len() == 0 {
        assert forall|a: int| 0 <= a < 8 implies #[trigger] tiles(v, a) by {}
    } else {
        let w = pages_step(empty_view(), ps.drop_last(), enabled);
        let p = ps.last();
        lemma_page_step_shape(w, p, enabled);
        assert forall|a: int| 0 <= a < 8 implies #[trigger] len_of(w, a) <= u64::MAX by {
            assert(len_of(w, a) <= len_of(v, a));
        }
        lemma_pages_tile(ps.drop_last(), enabled);
        let v2 = LayoutView { pages: w.pages, ..v };
        let rec = v.pages.last();
        assert(rec == page_record(p, enabled, w, v2));
        assert forall|a: int| 0 <= a < 8 implies #[trigger] range_of(rec, a).0 == len_of(w, a)
            && range_of(rec, a).0 + range_of(rec, a).1 == len_of(v, a) by {
            assert(len_of(w, a) <= len_of(v, a));
            assert(len_of(v2, a) == len_of(v, a));
        }
        assert forall|a: int| 0 <= a < 8 implies #[trigger] tiles(v, a) by {
            assert(range_of(rec, a).0 == len_of(w, a));
            if ps.len() > 1 {
                assert(tiles(w, a));
                assert forall|k: int| 0 < k < v.pages.len() implies #[trigger] range_of(
                    v.pages[k],
                    a,
                ).0 == range_of(v.pages[k - 1], a).0 + range_of(v.pages[k - 1], a).1 by {
                    if k < w.pages.len() {
                        assert(v.pages[k] == w.pages[k]);
                        assert(v.pages[k - 1] == w.pages[k - 1]);
                        assert(range_of(w.pages[k], a).0 == range_of(w.pages[k - 1], a).0
                            + range_of(w.pages[k - 1], a).1);
                    } else {
                        assert(v.pages[k - 1] == w.pages[w.pages.len() - 1]);
                    }
                }
                assert(v.pages[0] == w.pages[0]);
            } else {
                assert(tiles(w, a));
            }
        }
        assert forall|k: int| 0 <= k < ps.len() implies (#[trigger] v.pages[k]).page_number
            == ps[k].page_number as u32 && v.pages[k].coordinate_space
            == LITEPARSE_PROJECTED_LAYOUT_COORDINATES && v.pages[k].line_count
            == ps[k].projected_lines@.len()
            && v.pages[k].region_count >= 1 && v.pages[k].flags == layout_flags_spec(
            enabled,
            v.pages[k].word_count > 0,
            v.pages[k].char_code_count > 0,
            true,
        ) by {
            if k < ps.len() - 1 {
                assert(v.pages[k] == w.pages[k]);
                assert(ps.drop_last()[k] == ps[k]);
            } else {
                assert(ps[k] == p);
                assert(v.pages[k] == rec);
                assert(len_of(v, 0) <= u64::MAX);
                assert(len_of(v, 2) <= u64::MAX);
                assert(len_of(v, 3) <= u64::MAX);
                assert(len_of(v, 5) <= u64::MAX);
                assert(len_of(w, 2) <= len_of(v, 2));
                assert(len_of(w, 3) <= len_of(v, 3));
                assert(v2.lines.len() == w.lines.len() + p.projected_lines@.len());
                assert(v2.regions.len() == w.regions.len() + tree_size(p.regions));
                assert(rec.line_count == p.projected_lines@.len());
                assert(rec.region_count >= 1);
                assert(rec.page_number == p.page_number as u32);
            }
        }
    }
}

} // verus!

verus! {

/// The flags a flattened node can carry: a leaf's, or a split's along
/// either axis.
pub open spec fn node_flags_ok(n: LiteParseProjectedRegion) -> bool {
    n.flags == LITEPARSE_PROJECTED_REGION_FLAG_LEAF || n.flags == split_flags(CutAxis::Horizontal)
        || n.flags == split_flags(CutAxis::Vertical)
}

/// Nodes of trees laid out from `base` whose roots hang under `parent`:
/// each names `parent` or an earlier node of the run.
pub open spec fn forest_parents_ok(nodes: Seq<LiteParseProjectedRegion>, parent: u64, base: nat) -> bool {
    forall|j: int|
        0 <= j < nodes.len() ==> node_flags_ok(#[trigger] nodes[j]) && (nodes[j].parent_index
            == parent || (base <= nodes[j].parent_index && nodes[j].parent_index < base + j))
}

/// Nodes of one tree laid out from `base`: the root names `parent`, and
/// every other node names an earlier node of the same tree.
pub open spec fn tree_parents_ok(nodes: Seq<LiteParseProjectedRegion>, parent: u64, base: nat) -> bool {
    &&& nodes.len() >= 1
    &&& nodes[0].parent_index == parent
    &&& node_flags_ok(nodes[0])
    &&& forall|i: int|
        1 <= i < nodes.len() ==> node_flags_ok(#[trigger] nodes[i]) && base
            <= nodes[i].parent_index && nodes[i].parent_index < base + i
}

/// Flattening a region tree puts every parent before its children: the
/// root names the given parent, every other node names an earlier node of
/// the same tree by its absolute index, and every node is flagged as a
/// leaf or as a split along one axis.
pub proof fn lemma_flat_tree_parents_first(
    r: Region<LiteParseRect>,
    parent: u64,
    base: nat,
    cbase: nat,
    ibase: nat,
)
    requires
        base + tree_size(r) <= u64::MAX,
    ensures
        tree_parents_ok(flat_tree(r, parent, base, cbase, ibase).0, parent, base),
    decreases r,
{
    lemma_tree_lengths(r, parent, base, cbase, ibase);
    match r.kind {
        RegionKind::Leaf { .. } => {},
        RegionKind::Split { axis, children } => {
            lemma_forest_parents_first(children@, base as u64, base + 1, cbase, ibase);
            lemma_forest_lengths(children@, base as u64, base + 1, cbase, ibase);
            let inner = flat_forest(children@, base as u64, base + 1, cbase, ibase);
            let nodes = flat_tree(r, parent, base, cbase, ibase).0;
            assert forall|i: int| 1 <= i < nodes.len() implies node_flags_ok(#[trigger] nodes[i])
                && base <= nodes[i].parent_index && nodes[i].parent_index < base + i by {
                assert(nodes[i] == inner.0[i - 1]);
            }
        },
    }
}

pub proof fn lemma_forest_parents_first(
    cs: Seq<Region<LiteParseRect>>,
    parent: u64,
    base: nat,
    cbase: nat,
    ibase: nat,
)
    requires
        base + forest_size(cs) <= u64::MAX,
    ensures
        forest_parents_ok(flat_forest(cs, parent, base, cbase, ibase).0, parent, base),
    decreases cs,
{
    if cs.len() > 0 {
        let p = cs.subrange(0, cs.len() - 1);
        lemma_forest_parents_first(p, parent, base, cbase, ibase);
        lemma_forest_lengths(p, parent, base, cbase, ibase);
        let a = flat_forest(p, parent, base, cbase, ibase);
        let last = cs[cs.len() - 1];
        let b0 = base + a.0.len();
        lemma_tree_lengths(last, parent, b0, cbase + a.1.len(), ibase + a.2.len());
        assert(tree_size(last) >= 1);
        assert(b0 + tree_size(last) <= u64::MAX);
        lemma_flat_tree_parents_first(last, parent, b0, cbase + a.1.len(), ibase + a.2.len());
        let b = flat_tree(last, parent, b0, cbase + a.1.len(), ibase + a.2.len());
        let nodes = flat_forest(cs, parent, base, cbase, ibase).0;
        assert(nodes == a.0 + b.0);
        assert forall|j: int| 0 <= j < nodes.len() implies node_flags_ok(#[trigger] nodes[j])
            && (nodes[j].parent_index == parent || (base <= nodes[j].parent_index
            && nodes[j].parent_index < base + j)) by {
            if j < a.0.len() {
                assert(nodes[j] == a.0[j]);
            } else {
                assert(nodes[j] == b.0[j - a.0.len()]);
                if j > a.0.len() {
                    assert(1 <= j - a.0.len());
                }
            }
        }
    }
}

} // verus!

verus! {

/// Whether the child list `cs[off - cbase..][..count]` names node `c`.
pub open spec fn lists_child(cs: Seq<u64>, cbase: nat, off: u64, count: u64, c: nat) -> bool {
    exists|j: int| 0 <= j < count && #[trigger] cs[off - cbase + j] == c
}

/// Every node's child list lies inside `cs` and names later nodes of `ns`
/// whose `parent_index` is that node. Node `k` has index `base + k`, and
/// `cs[0]` sits at `cbase` in the children array.
pub open spec fn child_links_down(
    ns: Seq<LiteParseProjectedRegion>,
    cs: Seq<u64>,
    base: nat,
    cbase: nat,
) -> bool {
    forall|k: int|
        #![trigger ns[k]]
        0 <= k < ns.len() ==> {
            &&& cbase <= ns[k].child_offset
            &&& ns[k].child_offset + ns[k].child_count <= cbase + cs.len()
            &&& forall|j: int|
                #![trigger cs[ns[k].child_offset - cbase + j]]
                0 <= j < ns[k].child_count ==> {
                    let c = cs[ns[k].child_offset - cbase + j];
                    &&& base + k < c < base + ns.len()
                    &&& ns[c - base].parent_index == base + k
                }
        }
}

/// Every node but the first names an earlier node as its parent, and that
/// parent lists it among its children.
pub open spec fn child_links_up(
    ns: Seq<LiteParseProjectedRegion>,
    cs: Seq<u64>,
    base: nat,
    cbase: nat,
) -> bool {
    forall|k: int|
        #![trigger ns[k]]
        1 <= k < ns.len() ==> {
            let p = ns[k].parent_index;
            &&& base <= p < base + k
            &&& lists_child(
                cs,
                cbase,
                ns[p - base].child_offset,
                ns[p - base].child_count,
                (base + k) as nat,
            )
        }
}

/// Shape of a flattened tree: its links agree both ways and its root
/// carries the given parent.
#[verifier::spinoff_prover]
#[verifier::rlimit(50)]
pub proof fn lemma_projected_tree_links(r: Region<LiteParseRect>, q: u64, base: nat, cbase: nat, ibase: nat)
    requires
        base + tree_size(r) <= u64::MAX,
        cbase + tree_size(r) <= u64::MAX,
    ensures
        flat_tree(r, q, base, cbase, ibase).0[0].parent_index == q,
        child_links_down(flat_tree(r, q, base, cbase, ibase).0, flat_tree(r, q, base, cbase, ibase).1, base, cbase),
        child_links_up(flat_tree(r, q, base, cbase, ibase).0, flat_tree(r, q, base, cbase, ibase).1, base, cbase),
    decreases r,
{
    lemma_tree_lengths(r, q, base, cbase, ibase);
    let t = flat_tree(r, q, base, cbase, ibase);
    match r.kind {
        RegionKind::Leaf { .. } => {
            assert(child_links_down(t.0, t.1, base, cbase));
        },
        RegionKind::Split { axis, children } => {
            let f = flat_forest(children@, base as u64, base + 1, cbase, ibase);
            let kids = child_roots(children@, base + 1);
            lemma_forest_lengths(children@, base as u64, base + 1, cbase, ibase);
            lemma_child_roots_len(children@, base + 1);
            lemma_projected_forest_links(children@, base as u64, base + 1, cbase, ibase);
            let ns = t.0;
            let cs = t.1;
            assert(ns == seq![ns[0]] + f.0);
            assert(cs == f.1 + kids);
            assert forall|k: int| 0 <= k < ns.len() implies {
                &&& cbase <= #[trigger] ns[k].child_offset
                &&& ns[k].child_offset + ns[k].child_count <= cbase + cs.len()
                &&& forall|j: int|
                    #![trigger cs[ns[k].child_offset - cbase + j]]
                    0 <= j < ns[k].child_count ==> {
                        let c = cs[ns[k].child_offset - cbase + j];
                        &&& base + k < c < base + ns.len()
                        &&& ns[c - base].parent_index == base + k
                    }
            } by {
                if k == 0 {
                    assert forall|j: int|
                        #![trigger cs[ns[k].child_offset - cbase + j]]
                        0 <= j < ns[k].child_count implies {
                        let c = cs[ns[k].child_offset - cbase + j];
                        &&& base + k < c < base + ns.len()
                        &&& ns[c - base].parent_index == base + k
                    } by {
                        assert(cs[ns[k].child_offset - cbase + j] == kids[j]);
                        let c = kids[j];
                        assert(base + 1 <= c < base + 1 + f.0.len());
                        assert(f.0[c - (base + 1)].parent_index == base);
                        assert(ns[c - base] == f.0[c - (base + 1)]);
                    }
                } else {
                    let n = f.0[k - 1];
                    assert(ns[k] == n);
                    assert(cbase <= n.child_offset);
                    assert(n.child_offset + n.child_count <= cbase + f.1.len());
                    assert forall|j: int|
                        #![trigger cs[ns[k].child_offset - cbase + j]]
                        0 <= j < ns[k].child_count implies {
                        let c = cs[ns[k].child_offset - cbase + j];
                        &&& base + k < c < base + ns.len()
                        &&& ns[c - base].parent_index == base + k
                    } by {
                        assert(cs[n.child_offset - cbase + j] == f.1[n.child_offset - cbase + j]);
                        let c = f.1[n.child_offset - cbase + j];
                        assert(base + 1 + (k - 1) < c < base + 1 + f.0.len());
                        assert(ns[c - base] == f.0[c - (base + 1)]);
                    }
                }
            }
            assert forall|k: int| 1 <= k < ns.len() implies {
                let p = #[trigger] ns[k].parent_index;
                &&& base <= p < base + k
                &&& lists_child(
                    cs,
                    cbase,
                    ns[p - base].child_offset,
                    ns[p - base].child_count,
                    (base + k) as nat,
                )
            } by {
                let n = f.0[k - 1];
                assert(ns[k] == n);
                let p = n.parent_index;
                if p == base {
                    assert(kids.contains((base + k) as u64));
                    let j = choose|j: int| 0 <= j < kids.len() && kids[j] == (base + k) as u64;
                    assert(cs[ns[0].child_offset - cbase + j] == kids[j]);
                } else {
                    assert(base + 1 <= p < base + 1 + (k - 1));
                    let m = f.0[p - (base + 1)];
                    assert(ns[p - base] == m);
                    assert(lists_child(f.1, cbase, m.child_offset, m.child_count, (base + 1 + (k - 1)) as nat));
                    let j = choose|j: int|
                        0 <= j < m.child_count && #[trigger] f.1[m.child_offset - cbase + j] == (base + 1 + (k - 1)) as nat;
                    assert(cs[m.child_offset - cbase + j] == f.1[m.child_offset - cbase + j]);
                }
            }
        },
    }
}

/// Shape of a flattened list of siblings: links agree inside it, and a node
/// whose parent is `q` is one of the sibling roots, each of which has `q`.
#[verifier::spinoff_prover]
#[verifier::rlimit(50)]
pub proof fn lemma_projected_forest_links(trees: Seq<Region<LiteParseRect>>, q: u64, base: nat, cbase: nat, ibase: nat)
    requires
        q < base,
        base + forest_size(trees) <= u64::MAX,
        cbase + forest_size(trees) <= u64::MAX,
    ensures
        child_links_down(flat_forest(trees, q, base, cbase, ibase).0, flat_forest(trees, q, base, cbase, ibase).1, base, cbase),
        forall|k: int|
            #![trigger flat_forest(trees, q, base, cbase, ibase).0[k]]
            0 <= k < flat_forest(trees, q, base, cbase, ibase).0.len() ==> {
                let ns = flat_forest(trees, q, base, cbase, ibase).0;
                let cs = flat_forest(trees, q, base, cbase, ibase).1;
                let p = ns[k].parent_index;
                ||| (p == q && child_roots(trees, base).contains((base + k) as u64))
                ||| (base <= p < base + k && lists_child(
                    cs,
                    cbase,
                    ns[p - base].child_offset,
                    ns[p - base].child_count,
                    (base + k) as nat,
                ))
            },
        forall|j: int|
            0 <= j < trees.len() ==> {
                let ns = flat_forest(trees, q, base, cbase, ibase).0;
                let c = #[trigger] child_roots(trees, base)[j];
                &&& base <= c < base + ns.len()
                &&& ns[c - base].parent_index == q
            },
    decreases trees,
{
    lemma_forest_lengths(trees, q, base, cbase, ibase);
    lemma_child_roots_len(trees, base);
    if trees.len() > 0 {
        let pre = trees.subrange(0, trees.len() - 1);
        let last = trees[trees.len() - 1];
        let a = flat_forest(pre, q, base, cbase, ibase);
        lemma_forest_lengths(pre, q, base, cbase, ibase);
        lemma_child_roots_len(pre, base);
        lemma_projected_forest_links(pre, q, base, cbase, ibase);
        let tb = base + a.0.len();
        let tc = cbase + a.1.len();
        let ti = ibase + a.2.len();
        let t = flat_tree(last, q, tb, tc, ti);
        lemma_tree_lengths(last, q, tb, tc, ti);
        lemma_projected_tree_links(last, q, tb, tc, ti);
        let f = flat_forest(trees, q, base, cbase, ibase);
        let ns = f.0;
        let cs = f.1;
        assert(ns == a.0 + t.0);
        assert(cs == a.1 + t.1);
        let roots = child_roots(trees, base);
        assert(roots == child_roots(pre, base).push(tb as u64));
        assert forall|k: int| 0 <= k < ns.len() implies {
            &&& cbase <= #[trigger] ns[k].child_offset
            &&& ns[k].child_offset + ns[k].child_count <= cbase + cs.len()
            &&& forall|j: int|
                #![trigger cs[ns[k].child_offset - cbase + j]]
                0 <= j < ns[k].child_count ==> {
                    let c = cs[ns[k].child_offset - cbase + j];
                    &&& base + k < c < base + ns.len()
                    &&& ns[c - base].parent_index == base + k
                }
        } by {
            if k < a.0.len() {
                let n = a.0[k];
                assert(ns[k] == n);
                assert forall|j: int|
                    #![trigger cs[ns[k].child_offset - cbase + j]]
                    0 <= j < ns[k].child_count implies {
                    let c = cs[ns[k].child_offset - cbase + j];
                    &&& base + k < c < base + ns.len()
                    &&& ns[c - base].parent_index == base + k
                } by {
                    assert(cs[n.child_offset - cbase + j] == a.1[n.child_offset - cbase + j]);
                    let c = a.1[n.child_offset - cbase + j];
                    assert(ns[c - base] == a.0[c - base]);
                }
            } else {
                let kk = k - a.0.len();
                let n = t.0[kk];
                assert(ns[k] == n);
                assert forall|j: int|
                    #![trigger cs[ns[k].child_offset - cbase + j]]
                    0 <= j < ns[k].child_count implies {
                    let c = cs[ns[k].child_offset - cbase + j];
                    &&& base + k < c < base + ns.len()
                    &&& ns[c - base].parent_index == base + k
                } by {
                    assert(cs[n.child_offset - cbase + j] == t.1[n.child_offset - tc + j]);
                    let c = t.1[n.child_offset - tc + j];
                    assert(ns[c - base] == t.0[c - tb]);
                }
            }
        }
        assert forall|k: int| 0 <= k < ns.len() implies {
            let p = #[trigger] ns[k].parent_index;
            ||| (p == q && roots.contains((base + k) as u64))
            ||| (base <= p < base + k && lists_child(
                cs,
                cbase,
                ns[p - base].child_offset,
                ns[p - base].child_count,
                (base + k) as nat,
            ))
        } by {
            if k < a.0.len() {
                assert(ns[k] == a.0[k]);
                let p = a.0[k].parent_index;
                if p == q && child_roots(pre, base).contains((base + k) as u64) {
                    let j = choose|j: int|
                        0 <= j < child_roots(pre, base).len() && child_roots(pre, base)[j] == (base + k) as u64;
                    assert(roots[j] == (base + k) as u64);
                } else {
                    let m = a.0[p - base];
                    assert(ns[p - base] == m);
                    let j = choose|j: int|
                        0 <= j < m.child_count && #[trigger] a.1[m.child_offset - cbase + j] == (base + k) as nat;
                    assert(cs[m.child_offset - cbase + j] == a.1[m.child_offset - cbase + j]);
                }
            } else if k == a.0.len() {
                assert(ns[k] == t.0[0]);
                assert(roots[roots.len() - 1] == tb as u64);
            } else {
                let kk = k - a.0.len();
                assert(ns[k] == t.0[kk]);
                let p = t.0[kk].parent_index;
                assert(tb <= p < tb + kk);
                let m = t.0[p - tb];
                assert(ns[p - base] == m);
                let j = choose|j: int|
                    0 <= j < m.child_count && #[trigger] t.1[m.child_offset - tc + j] == (tb + kk) as nat;
                assert(cs[m.child_offset - cbase + j] == t.1[m.child_offset - tc + j]);
            }
        }
        assert forall|j: int| 0 <= j < trees.len() implies {
            let c = #[trigger] roots[j];
            &&& base <= c < base + ns.len()
            &&& ns[c - base].parent_index == q
        } by {
            if j < pre.len() {
                assert(roots[j] == child_roots(pre, base)[j]);
                let c = roots[j];
                assert(ns[c - base] == a.0[c - base]);
            } else {
                assert(roots[j] == tb as u64);
                assert(ns[tb - base] == t.0[0]);
            }
        }
    }
}

/// A projected page's flattened region tree links both ways: each node's
/// child list is a contiguous run of `region_children` naming later nodes
/// whose `parent_index` is that node, and every node but the root is named
/// by its parent.
pub proof fn lemma_projected_region_links(region: Region<LiteParseRect>, parent: u64, base: nat, cbase: nat, ibase: nat)
    requires
        base + tree_size(region) <= u64::MAX,
        cbase + tree_size(region) <= u64::MAX,
    ensures
        flat_tree(region, parent, base, cbase, ibase).0.len() == tree_size(region),
        flat_tree(region, parent, base, cbase, ibase).0[0].parent_index == parent,
        child_links_down(flat_tree(region, parent, base, cbase, ibase).0, flat_tree(region, parent, base, cbase, ibase).1, base, cbase),
        child_links_up(flat_tree(region, parent, base, cbase, ibase).0, flat_tree(region, parent, base, cbase, ibase).1, base, cbase),
{
    lemma_tree_lengths(region, parent, base, cbase, ibase);
    lemma_projected_tree_links(region, parent, base, cbase, ibase);
}

} // verus!

verus! {

/// Line records cut the spans they cover into consecutive ranges: the
/// first starts at `start`, each starts where the one before it ends, and
/// the last ends at `end` (with no lines, `start == end`).
pub open spec fn lines_tile_spans(lines: Seq<LiteParseProjectedLine>, start: nat, end: nat) -> bool {
    if lines.len() == 0 {
        start == end
    } else {
        &&& lines[0].span_offset == start
        &&& forall|k: int|
            0 < k < lines.len() ==> #[trigger] lines[k].span_offset == lines[k - 1].span_offset
                + lines[k - 1].span_count
        &&& lines[lines.len() - 1].span_offset + lines[lines.len() - 1].span_count == end
    }
}

proof fn lemma_lines_tile(v: LayoutView, ls: Seq<ProjectedLine>, enabled: bool)
    requires
        lines_step(v, ls, enabled).spans.len() <= u64::MAX,
    ensures
        ({
            let r = lines_step(v, ls, enabled);
            &&& r.lines.len() == v.lines.len() + ls.len()
            &&& r.lines.take(v.lines.len() as int) == v.lines
            &&& v.spans.len() <= r.spans.len()
            &&& lines_tile_spans(r.lines.skip(v.lines.len() as int), v.spans.len(), r.spans.len())
            &&& forall|k: int|
                0 <= k < ls.len() ==> (#[trigger] r.lines[v.lines.len() + k]).span_count
                    == ls[k].spans@.len()
        }),
    decreases ls.len(),
{
    lemma_lines_step_frame(v, ls, enabled);
    if ls.len() > 0 {
        let w = lines_step(v, ls.drop_last(), enabled);
        let l = ls.last();
        lemma_lines_step_frame(v, ls.drop_last(), enabled);
        lemma_spans_step_frame(w, l.spans@, enabled);
        let v1 = spans_step(w, l.spans@, enabled);
        let r = lines_step(v, ls, enabled);
        assert(r.spans == v1.spans);
        lemma_lines_tile(v, ls.drop_last(), enabled);
        let n0 = v.lines.len() as int;
        let rec = r.lines.last();
        assert(r.lines == w.lines.push(rec));
        assert(rec.span_offset == w.spans.len());
        assert(rec.span_count == l.spans@.len());
        assert(r.lines.take(n0) =~= w.lines.take(n0));
        let old_run = w.lines.skip(n0);
        let run = r.lines.skip(n0);
        assert(run =~= old_run.push(rec));
        assert(lines_tile_spans(run, v.spans.len(), r.spans.len())) by {
            if old_run.len() > 0 {
                assert(run[0] == old_run[0]);
                assert forall|k: int| 0 < k < run.len() implies #[trigger] run[k].span_offset
                    == run[k - 1].span_offset + run[k - 1].span_count by {
                    if k < old_run.len() {
                        assert(run[k] == old_run[k]);
                        assert(run[k - 1] == old_run[k - 1]);
                        assert(old_run[k].span_offset == old_run[k - 1].span_offset
                            + old_run[k - 1].span_count);
                    } else {
                        assert(run[k - 1] == old_run[old_run.len() - 1]);
                    }
                }
            }
        }
        assert forall|k: int| 0 <= k < ls.len() implies (#[trigger] r.lines[v.lines.len()
            + k]).span_count == ls[k].spans@.len() by {
            if k < ls.len() - 1 {
                assert(r.lines[v.lines.len() + k] == w.lines[v.lines.len() + k]);
                assert(ls.drop_last()[k] == ls[k]);
            }
        }
    } else {
        assert(lines_step(v, ls, enabled).lines.take(v.lines.len() as int) =~= v.lines);
        assert(lines_step(v, ls, enabled).lines.skip(v.lines.len() as int).len() == 0);
    }
}

/// Within each page, the lines cut the page's span range into consecutive
/// ranges, one per line and in line order, each as long as its source
/// line's list of spans.
pub proof fn lemma_page_lines_tile_spans(ps: Seq<ParsedPage>, enabled: bool)
    requires
        forall|a: int|
            0 <= a < 8 ==> #[trigger] len_of(pages_step(empty_view(), ps, enabled), a)
                <= u64::MAX,
    ensures
        ({
            let v = pages_step(empty_view(), ps, enabled);
            forall|k: int|
                0 <= k < ps.len() ==> {
                    let pg = #[trigger] v.pages[k];
                    &&& pg.line_offset + pg.line_count <= v.lines.len()
                    &&& lines_tile_spans(
                        v.lines.subrange(pg.line_offset as int, pg.line_offset + pg.line_count),
                        pg.span_offset as nat,
                        (pg.span_offset + pg.span_count) as nat,
                    )
                    &&& forall|m: int|
                        0 <= m < pg.line_count ==> (#[trigger] v.lines[pg.line_offset + m]).span_count
                            == ps[k].projected_lines@[m].spans@.len()
                }
        }),
    decreases ps.len(),
{
    lemma_pages_tile(ps, enabled);
    if ps.len() > 0 {
        let v = pages_step(empty_view(), ps, enabled);
        let w = pages_step(empty_view(), ps.drop_last(), enabled);
        let p = ps.last();
        lemma_page_step_shape(w, p, enabled);
        assert forall|a: int| 0 <= a < 8 implies #[trigger] len_of(w, a) <= u64::MAX by {
            assert(len_of(w, a) <= len_of(v, a));
        }
        lemma_page_lines_tile_spans(ps.drop_last(), enabled);
        let t = flat_tree(
            p.regions,
            LITEPARSE_PROJECTED_REGION_NO_PARENT,
            w.regions.len(),
            w.region_children.len(),
            w.region_items.len(),
        );
        let v1 = LayoutView {
            regions: w.regions + t.0,
            region_children: w.region_children + t.1,
            region_items: w.region_items + t.2,
            ..w
        };
        let v2 = lines_step(v1, p.projected_lines@, enabled);
        assert(v.lines == v2.lines && v.spans == v2.spans);
        assert(len_of(v, 1) <= u64::MAX);
        lemma_lines_tile(v1, p.projected_lines@, enabled);
        let n = ps.len() - 1;
        let rec = v.pages[n];
        assert(rec == page_record(p, enabled, w, LayoutView { pages: w.pages, ..v }));
        assert(len_of(v, 0) <= u64::MAX);
        assert(rec.line_offset == w.lines.len());
        assert(rec.line_count == p.projected_lines@.len());
        assert(rec.span_offset == w.spans.len());
        assert(rec.span_offset + rec.span_count == v.spans.len());
        assert(v.lines.subrange(rec.line_offset as int, rec.line_offset + rec.line_count)
            =~= v2.lines.skip(v1.lines.len() as int));
        assert forall|k: int| 0 <= k < ps.len() implies {
            let pg = #[trigger] v.pages[k];
            &&& pg.line_offset + pg.line_count <= v.lines.len()
            &&& lines_tile_spans(
                v.lines.subrange(pg.line_offset as int, pg.line_offset + pg.line_count),
                pg.span_offset as nat,
                (pg.span_offset + pg.span_count) as nat,
            )
            &&& forall|m: int|
                0 <= m < pg.line_count ==> (#[trigger] v.lines[pg.line_offset + m]).span_count
                    == ps[k].projected_lines@[m].spans@.len()
        } by {
            if k < n {
                let pg = w.pages[k];
                assert(v.pages[k] == pg);
                assert(ps.drop_last()[k] == ps[k]);
                assert(pg.line_offset + pg.line_count <= w.lines.len());
                assert(v.lines.subrange(pg.line_offset as int, pg.line_offset + pg.line_count)
                    =~= w.lines.subrange(pg.line_offset as int, pg.line_offset + pg.line_count))
                    by {
                    assert(v2.lines.take(v1.lines.len() as int) == v1.lines);
                }
                assert forall|m: int| 0 <= m < pg.line_count implies (#[trigger] v.lines[pg.line_offset
                    + m]).span_count == ps[k].projected_lines@[m].spans@.len() by {
                    assert(v2.lines.take(v1.lines.len() as int) == v1.lines);
                    assert(v.lines[pg.line_offset + m] == w.lines[pg.line_offset + m]);
                }
            } else {
                assert forall|m: int| 0 <= m < rec.line_count implies (#[trigger] v.lines[rec.line_offset
                    + m]).span_count == ps[k].projected_lines@[m].spans@.len() by {
                    assert(v.lines[rec.line_offset + m] == v2.lines[v1.lines.len() + m]);
                }
            }
        }
    }
}

} // verus!

verus! {

/// A line's anchor code names its anchor: 0 for left, 1 for right, 2 for
/// centred and 3 for floating, so distinct anchors get distinct codes.
pub open spec fn anchor_named(code: u32, a: Anchor) -> bool {
    &&& (code == 0) == (a is Left)
    &&& (code == 1) == (a is Right)
    &&& (code == 2) == (a is Center)
    &&& (code == 3) == (a is Floating)
}

/// Packing lines appends one record per line, in order, whose anchor code
/// names that line's anchor.
pub proof fn lemma_lines_keep_anchor(v: LayoutView, ls: Seq<ProjectedLine>, enabled: bool)
    ensures
        lines_step(v, ls, enabled).lines.len() == v.lines.len() + ls.len(),
        forall|k: int|
            0 <= k < ls.len() ==> anchor_named(
                (#[trigger] lines_step(v, ls, enabled).lines[v.lines.len() + k]).anchor,
                ls[k].anchor,
            ),
    decreases ls.len(),
{
    lemma_lines_step_frame(v, ls, enabled);
    if ls.len() > 0 {
        let p = ls.drop_last();
        lemma_lines_keep_anchor(v, p, enabled);
        let w = lines_step(v, p, enabled);
        lemma_spans_step_frame(w, ls.last().spans@, enabled);
        let r = lines_step(v, ls, enabled);
        assert(r.lines == w.lines.push(r.lines.last()));
        assert forall|k: int| 0 <= k < ls.len() implies anchor_named(
            (#[trigger] r.lines[v.lines.len() + k]).anchor,
            ls[k].anchor,
        ) by {
            if k < p.len() {
                assert(r.lines[v.lines.len() + k] == w.lines[v.lines.len() + k]);
                assert(p[k] == ls[k]);
            }
        }
    }
}

} // verus!

verus! {

/// The root of a flattened tree is flagged 1 when it is a leaf, 6 (split,
/// horizontal) when it is cut horizontally and 10 (split, vertical) when it
/// is cut vertically; a leaf root has no children.
pub proof fn lemma_flat_root_flags(
    r: Region<LiteParseRect>,
    parent: u64,
    base: nat,
    cbase: nat,
    ibase: nat,
)
    ensures
        ({
            let root = flat_tree(r, parent, base, cbase, ibase).0[0];
            &&& root.parent_index == parent
            &&& match r.kind {
                RegionKind::Leaf { .. } => root.flags == 1 && root.child_count == 0,
                RegionKind::Split { axis, .. } => (axis is Horizontal ==> root.flags == 6) && (
                axis is Vertical ==> root.flags == 10),
            }
        }),
{
    assert(2u32 | 4u32 == 6u32 && 2u32 | 8u32 == 10u32) by (bit_vector);
}

} // verus!

verus! {

/// A packed word keeps its word's box and the byte length of its text.
pub proof fn lemma_word_record_keeps_box(w: WordBox)
    ensures
        word_record(w).x == w.x,
        word_record(w).y == w.y,
        word_record(w).width == w.width,
        word_record(w).height == w.height,
        word_record(w).text.len == utf8_len(w.text@) as u64,
{
}

/// A packed span keeps its span's box and rotation, reports its font size,
/// confidence and font flags or zero where it has none, and starts its
/// words and codes at the given offsets, as many as it has.
pub proof fn lemma_span_record_keeps_box(s: ProjectedSpan, enabled: bool, word_offset: nat, code_offset: nat)
    requires
        word_offset <= u64::MAX,
        code_offset <= u64::MAX,
        s.words@.len() <= u64::MAX,
        codes_of(s, enabled).len() <= u64::MAX,
    ensures
        ({
            let r = span_record(s, enabled, word_offset, code_offset);
            &&& r.x == s.x && r.y == s.y && r.width == s.width && r.height == s.height
            &&& r.rotation == s.rotation
            &&& (s.font_size matches Some(f) ==> r.font_size == f) && (s.font_size is None
                ==> r.font_size == 0)
            &&& (s.confidence matches Some(c) ==> r.confidence == c) && (s.confidence is None
                ==> r.confidence == 0)
            &&& (s.font_flags matches Some(f) ==> r.font_flags == f) && (s.font_flags is None
                ==> r.font_flags == 0)
            &&& r.word_offset == word_offset && r.word_count == s.words@.len()
            &&& r.char_code_offset == code_offset && r.char_code_count == codes_of(s, enabled).len()
        }),
{
}

} // verus!

verus! {

/// A packed line keeps its line's box, indent and dominant font size,
/// reports its heading size and marked-content id or zero, and names its
/// span and region-path ranges.
pub proof fn lemma_line_record_keeps_box(l: ProjectedLine, span_offset: nat, span_count: nat, path_offset: nat)
    requires
        span_offset <= u64::MAX,
        span_count <= u64::MAX,
        path_offset <= u64::MAX,
        l.region_path@.len() <= u64::MAX,
    ensures
        ({
            let r = line_record(l, span_offset, span_count, path_offset);
            &&& r.bbox == l.bbox
            &&& r.indent_x == l.indent_x
            &&& r.dominant_font_size == l.dominant_font_size
            &&& (l.heading_font_size matches Some(h) ==> r.heading_font_size == h) && (
            l.heading_font_size is None ==> r.heading_font_size == 0)
            &&& (l.mcid matches Some(m) ==> r.mcid == m) && (l.mcid is None ==> r.mcid == 0)
            &&& r.span_offset == span_offset && r.span_count == span_count
            &&& r.region_path_offset == path_offset && r.region_path_count == l.region_path@.len()
            &&& anchor_named(r.anchor, l.anchor)
        }),
{
}

} // verus!
