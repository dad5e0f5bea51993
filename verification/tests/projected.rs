use liteparse_c::check::LiteParseRect;
use liteparse_c::projected::{
    Anchor, ParsedPage, ProjectedLayoutPacked, ProjectedLine, ProjectedSpan, TextMetadata, WordBox,
    LITEPARSE_PROJECTED_LAYOUT_FLAG_REGION_TREE, LITEPARSE_PROJECTED_LAYOUT_FLAG_WORDS,
};
use liteparse_c::region::{CutAxis, Region, RegionKind};

fn rect(w: u32) -> LiteParseRect {
    LiteParseRect { x: 0, y: 0, width: w, height: w }
}

fn word(t: &str) -> WordBox {
    WordBox { text: t.to_string(), x: 0, y: 0, width: 1, height: 1 }
}

fn span(t: &str, words: Vec<WordBox>) -> ProjectedSpan {
    ProjectedSpan {
        text: t.to_string(),
        font_name: None,
        link: None,
        x: 0,
        y: 0,
        width: 1,
        height: 1,
        rotation: 0,
        font_size: None,
        confidence: None,
        font_flags: None,
        strike: false,
        has_unicode_map_error: false,
        words,
        metadata: TextMetadata::none(),
    }
}

fn line(t: &str, spans: Vec<ProjectedSpan>, path: Vec<u16>) -> ProjectedLine {
    ProjectedLine {
        text: t.to_string(),
        dominant_font_name: None,
        bbox: rect(10),
        indent_x: 0,
        dominant_font_size: 0,
        heading_font_size: None,
        mcid: None,
        anchor: Anchor::Left,
        all_bold: false,
        all_italic: false,
        all_mono: false,
        all_strike: false,
        font_size_is_estimated: false,
        rtl: false,
        in_figure: false,
        region_path: path,
        spans,
    }
}

fn leaf(items: Vec<usize>) -> Region<LiteParseRect> {
    Region { bbox: rect(5), kind: RegionKind::Leaf { item_indices: items } }
}

fn ranges(p: &liteparse_c::projected::LiteParseProjectedLayoutPage) -> [(u64, u64); 8] {
    [
        (p.line_offset, p.line_count),
        (p.span_offset, p.span_count),
        (p.word_offset, p.word_count),
        (p.char_code_offset, p.char_code_count),
        (p.region_path_offset, p.region_path_count),
        (p.region_offset, p.region_count),
        (p.region_item_offset, p.region_item_count),
        (p.region_child_offset, p.region_child_count),
    ]
}

#[test]
fn projected_pages_tile_every_array() {
    let first = ParsedPage {
        page_number: 1,
        page_width: 612,
        page_height: 792,
        projected_lines: vec![
            line("a b", vec![span("a b", vec![word("a"), word("b")])], vec![0]),
            line("c", vec![span("c", vec![word("c")]), span("", vec![])], vec![1]),
        ],
        regions: Region {
            bbox: rect(20),
            kind: RegionKind::Split {
                axis: CutAxis::Vertical,
                children: vec![leaf(vec![0]), leaf(vec![1])],
            },
        },
    };
    let second = ParsedPage {
        page_number: 7,
        page_width: 100,
        page_height: 200,
        projected_lines: vec![],
        regions: leaf(vec![]),
    };
    let third = ParsedPage {
        page_number: 9,
        page_width: 100,
        page_height: 200,
        projected_lines: vec![line("d", vec![span("d", vec![word("d")])], vec![])],
        regions: leaf(vec![0]),
    };
    let packed = ProjectedLayoutPacked::pack(&[first, second, third], false);
    assert_eq!(packed.pages.len(), 3);
    let lens = [
        packed.lines.len() as u64,
        packed.spans.len() as u64,
        packed.words.len() as u64,
        packed.char_codes.len() as u64,
        packed.region_paths.len() as u64,
        packed.tree.regions.len() as u64,
        packed.tree.region_items.len() as u64,
        packed.tree.region_children.len() as u64,
    ];
    assert_eq!(lens, [3, 4, 4, 0, 2, 5, 3, 2]);
    for a in 0..8 {
        assert_eq!(ranges(&packed.pages[0])[a].0, 0);
        for k in 1..3 {
            let prev = ranges(&packed.pages[k - 1])[a];
            assert_eq!(ranges(&packed.pages[k])[a].0, prev.0 + prev.1);
        }
        let last = ranges(&packed.pages[2])[a];
        assert_eq!(last.0 + last.1, lens[a]);
    }
    assert_eq!(
        packed.pages.iter().map(|p| (p.page_number, p.line_count)).collect::<Vec<_>>(),
        vec![(1, 2), (7, 0), (9, 1)]
    );
    for p in &packed.pages {
        assert!(p.region_count >= 1);
        assert_ne!(p.flags & LITEPARSE_PROJECTED_LAYOUT_FLAG_REGION_TREE, 0);
    }
    let spans: Vec<(u64, u64)> = packed.lines.iter().map(|l| (l.span_offset, l.span_count)).collect();
    assert_eq!(spans, vec![(0, 1), (1, 2), (3, 1)]);
    assert_eq!((packed.pages[2].span_offset, packed.pages[2].span_count), (3, 1));
    assert_eq!(packed.pages[1].flags & LITEPARSE_PROJECTED_LAYOUT_FLAG_WORDS, 0);
    assert_ne!(packed.pages[2].flags & LITEPARSE_PROJECTED_LAYOUT_FLAG_WORDS, 0);
}

#[test]
fn projected_abi_offsets_name_aligned_fields_inside_their_records() {
    let abi = liteparse_c::layout::projected_layout_abi();
    assert_eq!(abi.version, liteparse_c::layout::LITEPARSE_PROJECTED_LAYOUT_ABI_VERSION);
    let records = [
        (abi.layout_bytes_size, abi.layout_bytes_align),
        (abi.projected_page_size, abi.projected_page_align),
        (abi.projected_line_size, abi.projected_line_align),
        (abi.projected_span_size, abi.projected_span_align),
        (abi.projected_word_size, abi.projected_word_align),
        (abi.projected_region_size, abi.projected_region_align),
    ];
    for (size, align) in records {
        assert!(align.is_power_of_two());
        assert_eq!(size % align, 0);
    }
    let u64_align = std::mem::align_of::<u64>() as u32;
    let offsets = [
        (abi.layout_bytes_len_offset, abi.layout_bytes_size),
        (abi.page_region_offset, abi.projected_page_size),
        (abi.line_span_offset, abi.projected_line_size),
        (abi.line_region_path_offset, abi.projected_line_size),
        (abi.span_char_code_offset, abi.projected_span_size),
        (abi.span_word_offset, abi.projected_span_size),
        (abi.region_child_offset, abi.projected_region_size),
    ];
    for (offset, size) in offsets {
        assert_eq!(offset % u64_align, 0);
        assert!(offset + 8 <= size);
    }
    assert_eq!(abi.projected_page_size, 5 * 4 + 4 + 16 * 8);
    assert_eq!(abi.page_region_offset, 24 + 10 * 8);
}

#[test]
fn flattened_regions_name_earlier_parents() {
    let split = |axis: CutAxis, children: Vec<Region<LiteParseRect>>| Region {
        bbox: rect(9),
        kind: RegionKind::Split { axis, children },
    };
    let tree = split(
        CutAxis::Horizontal,
        vec![split(CutAxis::Vertical, vec![leaf(vec![0]), leaf(vec![1])]), leaf(vec![2])],
    );
    let mut arrays = liteparse_c::projected::RegionArrays {
        regions: vec![],
        region_items: vec![],
        region_children: vec![],
    };
    let root = arrays.flatten_region(&tree, liteparse_c::projected::LITEPARSE_PROJECTED_REGION_NO_PARENT);
    assert_eq!(root, 0);
    assert_eq!(arrays.regions.len(), 5);
    assert_eq!(arrays.regions[0].parent_index, liteparse_c::projected::LITEPARSE_PROJECTED_REGION_NO_PARENT);
    for (i, node) in arrays.regions.iter().enumerate().skip(1) {
        assert!((node.parent_index as usize) < i);
    }
    let flags: Vec<u32> = arrays.regions.iter().map(|n| n.flags).collect();
    assert_eq!(flags, vec![6, 10, 1, 1, 1]);
}
