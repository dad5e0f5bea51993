use liteparse_c::check::LiteParseRect;
use liteparse_c::content::LiteParseLayoutBlock;
use liteparse_c::content_in::{copy_outline_entry, owned_content, ContentInput, LiteParseImage};
use liteparse_c::handle::LiteParseByteView;
use liteparse_c::pack::{Packed, PageParts};
use liteparse_c::page::{ContentArrays, TextItem};
use liteparse_c::pool::LiteParseStr;
use liteparse_c::records::{LiteParseOutlineEntry, LITEPARSE_OUTLINE_FLAG_HAS_Y_PDF};
use liteparse_c::status::LITEPARSE_STATUS_INVALID_ARGUMENT;

const SIZE: usize = 512;

fn bits(v: f32) -> u32 {
    v.to_bits()
}

fn item(t: &str) -> TextItem {
    TextItem {
        text: t.to_string(),
        x: bits(72.0),
        y: bits(100.0),
        width: bits(80.0),
        height: bits(12.0),
        rotation: 0,
        font_name: None,
        font_size: None,
        font_height: None,
        font_ascent: None,
        font_descent: None,
        font_weight: None,
        font_flags: None,
        text_width: None,
        font_is_buggy: false,
        has_unicode_map_error: false,
        mcid: None,
        fill_color: None,
        stroke_color: None,
        char_codes: Vec::new(),
        trailing_space_generated: false,
        confidence: None,
        link: None,
        strike: false,
        words: Vec::new(),
    }
}

fn page(number: usize, label: &str, texts: &[&str]) -> PageParts {
    PageParts {
        page_number: number,
        page_label: Some(label.to_string()),
        width: bits(612.0),
        height: bits(792.0),
        content_bounds: None,
        text: String::new(),
        markdown: String::new(),
        text_items: texts.iter().map(|t| item(t)).collect(),
        graphics: Vec::new(),
        vector_graphics: None,
        struct_nodes: Vec::new(),
        image_refs: Vec::new(),
        annotations: None,
        form_fields: None,
        structure_tree: None,
        blocks: None,
        complexity: None,
        figures: Vec::new(),
        item_frames: Vec::new(),
        projected_lines: Vec::new(),
        regions: None,
        geometry: None,
    }
}

fn input<'a>(packed: &'a Packed, size: usize, outline: &'a [LiteParseOutlineEntry]) -> ContentInput<'a> {
    ContentInput {
        size_of_content: size,
        arrays: ContentArrays {
            pool: packed.pool.as_bytes(),
            items: &packed.items,
            words: &packed.words,
            char_codes: &packed.char_codes,
            graphics: &packed.graphics,
            struct_nodes: &packed.struct_nodes,
            mcids: &packed.mcids,
            image_refs: &packed.image_refs,
            annotations: &packed.annotations,
            quadpoints: &packed.quadpoints,
            form_fields: &packed.form_fields,
            strings: &packed.strings,
            structure_nodes: &packed.structure_nodes,
            structure_attributes: &packed.structure_attributes,
            vector_shapes: &packed.vector_shapes,
            vector_lines: &packed.vector_lines,
        },
        blocks: &packed.blocks,
        cells: &packed.cells,
        rows: &packed.rows,
        pages: &packed.pages,
        outline,
        images: &[],
        image_bytes: &[],
        document_block_offset: 0,
        document_block_count: 0,
    }
}

#[test]
fn extract_round_trips_into_parse_content() {
    let pages = vec![
        page(1, "i", &["Preface"]),
        page(2, "ii", &[]),
        page(3, "1", &["Chapter", "One"]),
        page(4, "2", &["End"]),
    ];
    let packed = Packed::pack_pages(&pages);
    let owned = owned_content(&input(&packed, SIZE, &[]), SIZE).unwrap_or_else(|e| panic!("{}", e.message));
    let labels: Vec<_> = owned.pages.iter().map(|p| p.page_label.clone().unwrap()).collect();
    assert_eq!(labels, ["i", "ii", "1", "2"]);
    let texts: Vec<_> = owned.pages[2].text_items.iter().map(|t| t.text.clone()).collect();
    assert_eq!(texts, ["Chapter", "One"]);
    assert!(owned.page_blocks.is_empty());
    assert!(owned.document_blocks.is_none());
    assert!(owned.page_stats.iter().all(Option::is_none));
}

#[test]
fn content_of_another_size_is_refused() {
    let packed = Packed::pack_pages(&vec![page(1, "i", &[])]);
    let e = owned_content(&input(&packed, 8, &[]), SIZE).err().unwrap();
    assert_eq!(e.status, LITEPARSE_STATUS_INVALID_ARGUMENT);
    assert_eq!(
        e.message,
        "content.size_of_content is 8 but this library expects 512; rebuild against the current header"
    );
}

#[test]
fn parse_content_rejects_bad_ranges_kinds_and_sizes() {
    let mut packed = Packed::pack_pages(&vec![page(1, "i", &["a"]), page(2, "ii", &["b"])]);
    packed.pages[1].item_offset = 7;
    let e = owned_content(&input(&packed, SIZE, &[]), SIZE).err().unwrap();
    assert_eq!(e.message, "pages[1].items range 7+1 is outside 0..2");
    let mut packed = Packed::pack_pages(&vec![page(1, "i", &[])]);
    packed.pages[0].page_number = 0;
    let e = owned_content(&input(&packed, SIZE, &[]), SIZE).err().unwrap();
    assert_eq!(e.message, "pages[0].page_number must be 1-based");
    let mut packed = Packed::pack_pages(&vec![page(1, "i", &[])]);
    packed.pages[0].block_count = 1;
    let e = owned_content(&input(&packed, SIZE, &[]), SIZE).err().unwrap();
    assert_eq!(e.message, "content.blocks range 0+1 is outside 0..0");
}

#[test]
fn outline_entries_check_flags_level_and_title() {
    let pool = b"Intro";
    let entry = LiteParseOutlineEntry {
        title: LiteParseStr { offset: 0, len: 5 },
        page_index: 2,
        y_pdf: bits(700.0),
        level: 1,
        flags: LITEPARSE_OUTLINE_FLAG_HAS_Y_PDF,
    };
    let o = copy_outline_entry(pool, &entry, "outline[0]").unwrap_or_else(|e| panic!("{}", e.message));
    assert_eq!((o.level, o.title.as_str(), o.page_index, o.y_pdf), (1, "Intro", 2, Some(bits(700.0))));
    let e = copy_outline_entry(pool, &LiteParseOutlineEntry { level: 300, ..entry }, "outline[0]").err().unwrap();
    assert_eq!(e.message, "outline[0].level must fit in u8");
    let e = copy_outline_entry(pool, &LiteParseOutlineEntry { flags: 2, ..entry }, "outline[3]").err().unwrap();
    assert_eq!(e.message, "outline[3].flags contains unknown bits");
    let e = copy_outline_entry(pool, &LiteParseOutlineEntry { y_pdf: f32::NAN.to_bits(), ..entry }, "outline[0]").err().unwrap();
    assert_eq!(e.message, "outline[0].y_pdf must be finite");
    let packed = Packed::pack_pages(&vec![page(1, "i", &[])]);
    let outline = [LiteParseOutlineEntry { title: LiteParseStr { offset: 0, len: 0 }, ..entry }];
    let owned = owned_content(&input(&packed, SIZE, &outline), SIZE).unwrap_or_else(|e| panic!("{}", e.message));
    assert_eq!(owned.outline.len(), 1);
    assert_eq!(owned.outline[0].title, "");
}

#[test]
fn images_copy_their_bytes_and_strings() {
    let packed = Packed::pack_pages(&vec![page(1, "i", &[])]);
    let image = LiteParseImage {
        id: LiteParseStr { offset: 0, len: 1 },
        name: LiteParseStr { offset: 0, len: 0 },
        path: LiteParseStr { offset: 0, len: 0 },
        format: LiteParseStr { offset: 0, len: 0 },
        duplicate_of: LiteParseStr { offset: 0, len: 0 },
        bytes: LiteParseByteView { ptr: 0, len: 0 },
        bbox: LiteParseRect { x: 0, y: 0, width: bits(1.0), height: bits(1.0) },
        page: 1,
        width: 2,
        height: 3,
        rotation: 0,
    };
    let bytes = vec![vec![1u8, 2, 3]];
    let mut c = input(&packed, SIZE, &[]);
    let images = [image];
    c.images = &images;
    c.image_bytes = &bytes;
    let owned = owned_content(&c, SIZE).unwrap_or_else(|e| panic!("{}", e.message));
    assert_eq!(owned.images[0].id, "i");
    assert_eq!(owned.images[0].bytes, vec![1, 2, 3]);
    assert!(owned.images[0].path.is_none());
    let bad = [LiteParseImage { rotation: f32::INFINITY.to_bits(), ..image }];
    c.images = &bad;
    let e = owned_content(&c, SIZE).err().unwrap();
    assert_eq!(e.message, "images[0].rotation must be finite");
    let _unused: Option<LiteParseLayoutBlock> = None;
}
