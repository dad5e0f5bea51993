use liteparse_c::check::{LiteParsePageGeometry, LiteParseRect};
use liteparse_c::pack::{
    graphic, LayoutBlock, LayoutCell, Packed, PageParts, PlacedGraphic, ProjectedTextLine, F32_ONE,
    LITEPARSE_LINE_FLAG_ALL_BOLD, LITEPARSE_LINE_FLAG_HAS_MCID,
};
use liteparse_c::page::{
    copy_page, AttributeValue, ContentArrays, DocumentAnnotation, FormField, GraphicPrimitive,
    ImageRef, StructNode, StructureContent, StructureTree, TextItem, VectorGraphics, VectorLine,
    VectorShape, WordBox, LITEPARSE_GRAPHIC_FLAG_HAS_FILL_COLOR,
    LITEPARSE_GRAPHIC_FLAG_HAS_STROKE_COLOR, LITEPARSE_GRAPHIC_RECT, LITEPARSE_GRAPHIC_STROKE,
    LITEPARSE_PAGE_FLAG_HAS_ANNOTATIONS, LITEPARSE_PAGE_FLAG_HAS_GEOMETRY,
    LITEPARSE_PAGE_FLAG_HAS_ROTATION, LITEPARSE_PAGE_FLAG_HAS_STRUCTURE_TREE,
    LITEPARSE_PAGE_FLAG_HAS_VECTOR_GRAPHICS, LITEPARSE_STRUCTURE_ATTR_BOOL,
    LITEPARSE_STRUCTURE_ATTR_NUMBER, LITEPARSE_STRUCTURE_ATTR_STRING,
    LITEPARSE_TEXT_ITEM_FLAG_HAS_FILL_COLOR, LITEPARSE_TEXT_ITEM_FLAG_HAS_FONT_SIZE,
    LITEPARSE_TEXT_ITEM_FLAG_STRIKE,
};
use liteparse_c::pool::LiteParseStr;
use liteparse_c::projected::Anchor;
use liteparse_c::region::{CutAxis, Region, RegionKind};
use liteparse_c::structure::{StructureElement, LITEPARSE_NO_PARENT};

fn bits(v: f32) -> u32 {
    v.to_bits()
}

fn rect(x: f32, y: f32, w: f32, h: f32) -> LiteParseRect {
    LiteParseRect { x: bits(x), y: bits(y), width: bits(w), height: bits(h) }
}

fn text(packed: &Packed, s: LiteParseStr) -> String {
    let bytes = packed.pool.read(s).expect("range inside the pool");
    String::from_utf8(bytes.to_vec()).unwrap()
}

fn item(t: &str, y: f32) -> TextItem {
    TextItem {
        text: t.to_string(),
        x: bits(72.0),
        y: bits(y),
        width: bits(80.0),
        height: bits(12.0),
        rotation: 0,
        font_name: None,
        font_size: None,
        font_height: None,
        font_ascent: None,
        font_descent: None,
        font_weight: None,
        font_flags: None,
        text_width: None,
        font_is_buggy: false,
        has_unicode_map_error: false,
        mcid: None,
        fill_color: None,
        stroke_color: None,
        char_codes: Vec::new(),
        trailing_space_generated: false,
        confidence: None,
        link: None,
        strike: false,
        words: Vec::new(),
    }
}

fn page(number: usize) -> PageParts {
    PageParts {
        page_number: number,
        page_label: None,
        width: bits(612.0),
        height: bits(792.0),
        content_bounds: None,
        text: String::new(),
        markdown: String::new(),
        text_items: Vec::new(),
        graphics: Vec::new(),
        vector_graphics: None,
        struct_nodes: Vec::new(),
        image_refs: Vec::new(),
        annotations: None,
        form_fields: None,
        structure_tree: None,
        blocks: None,
        complexity: None,
        figures: Vec::new(),
        item_frames: Vec::new(),
        projected_lines: Vec::new(),
        regions: None,
        geometry: None,
    }
}

fn arrays(packed: &Packed) -> ContentArrays<'_> {
    ContentArrays {
        pool: packed.pool.as_bytes(),
        items: &packed.items,
        words: &packed.words,
        char_codes: &packed.char_codes,
        graphics: &packed.graphics,
        struct_nodes: &packed.struct_nodes,
        mcids: &packed.mcids,
        image_refs: &packed.image_refs,
        annotations: &packed.annotations,
        quadpoints: &packed.quadpoints,
        form_fields: &packed.form_fields,
        strings: &packed.strings,
        structure_nodes: &packed.structure_nodes,
        structure_attributes: &packed.structure_attributes,
        vector_shapes: &packed.vector_shapes,
        vector_lines: &packed.vector_lines,
    }
}

fn rich_item() -> TextItem {
    let mut it = item("Hello", 100.0);
    it.font_name = Some("Helvetica".to_string());
    it.font_size = Some(bits(12.0));
    it.fill_color = Some("ff102030".to_string());
    it.strike = true;
    it.char_codes = vec![72, 101, 108, 108, 111];
    it.words = vec![WordBox {
        text: "Hello".to_string(),
        x: bits(72.0),
        y: bits(100.0),
        width: bits(30.0),
        height: bits(12.0),
    }];
    it
}

#[test]
fn push_page_packs_items_words_and_codes() {
    let mut p = page(1);
    p.page_label = Some("i".to_string());
    p.text = "Hello\nWorld".to_string();
    p.text_items = vec![rich_item(), item("World", 120.0)];
    let mut packed = Packed::new();
    packed.push_page(&p);
    assert_eq!(packed.pages.len(), 1);
    let rec = packed.pages[0];
    assert_eq!(rec.page_number, 1);
    assert_eq!((rec.item_offset, rec.item_count), (0, 2));
    assert_eq!(text(&packed, rec.label), "i");
    assert_eq!(text(&packed, rec.text), "Hello\nWorld");
    let first = packed.items[0];
    assert_eq!(text(&packed, first.text), "Hello");
    assert_eq!(text(&packed, first.font_name), "Helvetica");
    assert_eq!(first.link, LiteParseStr { offset: 0, len: 0 });
    assert_eq!(first.fill_color, 0xff10_2030);
    assert_eq!(
        first.flags,
        LITEPARSE_TEXT_ITEM_FLAG_HAS_FONT_SIZE
            | LITEPARSE_TEXT_ITEM_FLAG_HAS_FILL_COLOR
            | LITEPARSE_TEXT_ITEM_FLAG_STRIKE
    );
    assert_eq!((first.word_offset, first.word_count), (0, 1));
    assert_eq!((first.char_code_offset, first.char_code_count), (0, 5));
    assert_eq!(packed.char_codes, vec![72, 101, 108, 108, 111]);
    assert_eq!(text(&packed, packed.words[0].text), "Hello");
    let second = packed.items[1];
    assert_eq!(second.flags, 0);
    assert_eq!((second.word_offset, second.word_count), (1, 0));
    assert_eq!(second.char_code_offset, 5);
}

#[test]
fn packed_page_reads_back_through_copy_page() {
    let mut p = page(3);
    p.page_label = Some("iii".to_string());
    p.text_items = vec![rich_item(), item("World", 120.0)];
    p.struct_nodes = vec![StructNode {
        role: "H1".to_string(),
        mcids: vec![0],
        bbox: Some(rect(1.0, 2.0, 3.0, 4.0)),
        alt_text: None,
    }];
    let mut packed = Packed::new();
    packed.push_page(&page(1));
    packed.push_page(&p);
    let rec = packed.pages[1];
    let back = copy_page(&rec, "pages[1]", &arrays(&packed)).unwrap_or_else(|e| panic!("{}", e.message));
    assert_eq!(back.page_number, 3);
    assert_eq!(back.page_label.as_deref(), Some("iii"));
    assert_eq!(back.text_items.len(), 2);
    let first = &back.text_items[0];
    assert_eq!(first.text, "Hello");
    assert_eq!(first.font_name.as_deref(), Some("Helvetica"));
    assert_eq!(first.font_size, Some(bits(12.0)));
    assert_eq!(first.fill_color.as_deref(), Some("ff102030"));
    assert!(first.strike);
    assert_eq!(first.char_codes, vec![72, 101, 108, 108, 111]);
    assert_eq!(first.words.len(), 1);
    assert_eq!(first.words[0].text, "Hello");
    assert_eq!(back.text_items[1].text, "World");
    assert_eq!(back.struct_nodes[0].role, "H1");
    assert_eq!(back.struct_nodes[0].mcids, vec![0]);
    assert!(back.annotations.is_none());
}

fn element(node: u32, children: Vec<StructureElement<u32>>) -> StructureElement<u32> {
    StructureElement { node, children }
}

fn content(kind: &str) -> StructureContent {
    StructureContent {
        element_type: kind.to_string(),
        id: None,
        actual_text: None,
        alt_text: None,
        title: None,
        attributes: Vec::new(),
        marked_content_ids: Vec::new(),
        annotations: Vec::new(),
    }
}

#[test]
fn structure_nodes_name_absolute_parents() {
    let tree = |root: &str| StructureTree {
        roots: vec![element(0, vec![element(1, Vec::new()), element(2, Vec::new())])],
        contents: vec![content(root), content("H1"), content("P")],
    };
    let mut first = page(1);
    first.structure_tree = Some(tree("Document"));
    let mut second = page(2);
    second.structure_tree = Some(tree("Part"));
    let mut packed = Packed::new();
    packed.push_page(&first);
    packed.push_page(&second);
    let rec = packed.pages[1];
    assert_ne!(rec.flags & LITEPARSE_PAGE_FLAG_HAS_STRUCTURE_TREE, 0);
    assert_eq!((rec.structure_node_offset, rec.structure_node_count), (3, 3));
    let nodes = &packed.structure_nodes[3..6];
    assert_eq!(nodes[0].parent_index, LITEPARSE_NO_PARENT);
    assert_eq!(nodes[1].parent_index, 3);
    assert_eq!(nodes[2].parent_index, 3);
    assert_eq!((nodes[0].depth, nodes[1].depth), (0, 1));
    assert_eq!(text(&packed, nodes[0].element_type), "Part");
    assert_eq!(text(&packed, nodes[2].element_type), "P");
}

#[test]
fn structure_attributes_pack_by_kind() {
    let mut c = content("Table");
    c.attributes = vec![
        ("Scope".to_string(), AttributeValue::String("Row".to_string())),
        ("Summary".to_string(), AttributeValue::Boolean(true)),
        ("Width".to_string(), AttributeValue::Number(bits(2.5))),
    ];
    c.marked_content_ids = vec![4, 5];
    let mut p = page(1);
    p.structure_tree = Some(StructureTree { roots: vec![element(0, Vec::new())], contents: vec![c] });
    let mut packed = Packed::new();
    packed.push_page(&p);
    let attrs = &packed.structure_attributes;
    assert_eq!(attrs.len(), 3);
    assert_eq!(attrs[0].kind, LITEPARSE_STRUCTURE_ATTR_STRING);
    assert_eq!(text(&packed, attrs[0].string), "Row");
    assert_eq!(text(&packed, attrs[0].name), "Scope");
    assert_eq!((attrs[1].kind, attrs[1].number), (LITEPARSE_STRUCTURE_ATTR_BOOL, F32_ONE));
    assert_eq!((attrs[2].kind, attrs[2].number), (LITEPARSE_STRUCTURE_ATTR_NUMBER, bits(2.5)));
    let node = packed.structure_nodes[0];
    assert_eq!((node.attribute_offset, node.attribute_count), (0, 3));
    assert_eq!((node.mcid_offset, node.mcid_count), (0, 2));
    assert_eq!(packed.mcids, vec![4, 5]);
}

#[test]
fn every_page_range_lies_inside_the_arrays() {
    let mut pages = Vec::new();
    for n in 1..=3usize {
        let mut p = page(n);
        p.text_items = (0..n).map(|k| item("x", k as f32)).collect();
        p.figures = vec![rect(0.0, 0.0, 1.0, 1.0); n];
        p.annotations = Some(Vec::new());
        pages.push(p);
    }
    let packed = Packed::pack_pages(&pages);
    assert_eq!(packed.pages.len(), 3);
    let mut expected_offset = 0;
    for (k, rec) in packed.pages.iter().enumerate() {
        assert_eq!(rec.item_offset, expected_offset);
        assert_eq!(rec.item_count as usize, k + 1);
        assert!((rec.item_offset + rec.item_count) as usize <= packed.items.len());
        assert!((rec.figure_offset + rec.figure_count) as usize <= packed.figures.len());
        assert_ne!(rec.flags & LITEPARSE_PAGE_FLAG_HAS_ANNOTATIONS, 0);
        expected_offset += rec.item_count;
    }
    assert_eq!(packed.items.len(), 6);
}

#[test]
fn graphic_records_keep_stroke_bounds() {
    let stroke = GraphicPrimitive::Stroke {
        x1: bits(1.0),
        y1: bits(2.0),
        x2: bits(3.0),
        y2: bits(4.0),
        color: Some("ff000000".to_string()),
        width: bits(0.5),
    };
    let r = graphic(&stroke, rect(1.0, 2.0, 2.0, 2.0));
    assert_eq!(r.kind, LITEPARSE_GRAPHIC_STROKE);
    assert_eq!(r.flags, LITEPARSE_GRAPHIC_FLAG_HAS_STROKE_COLOR);
    assert_eq!(r.bbox, rect(1.0, 2.0, 2.0, 2.0));
    assert_eq!((r.line_width, r.stroke_color, r.fill_color), (bits(0.5), 0xff00_0000, 0));
    let fill = GraphicPrimitive::Rect {
        bbox: rect(5.0, 6.0, 7.0, 8.0),
        fill: Some("ffffffff".to_string()),
        stroke: Some("not a colour".to_string()),
    };
    let r = graphic(&fill, rect(0.0, 0.0, 0.0, 0.0));
    assert_eq!(r.kind, LITEPARSE_GRAPHIC_RECT);
    assert_eq!(r.flags, LITEPARSE_GRAPHIC_FLAG_HAS_FILL_COLOR);
    assert_eq!(r.bbox, rect(5.0, 6.0, 7.0, 8.0));
    assert_eq!((r.x1, r.line_width), (0, 0));
    let mut p = page(1);
    p.graphics = vec![PlacedGraphic { primitive: fill, bounds: rect(0.0, 0.0, 0.0, 0.0) }];
    let mut packed = Packed::new();
    packed.push_page(&p);
    assert_eq!((packed.pages[0].graphic_offset, packed.pages[0].graphic_count), (0, 1));
}

#[test]
fn annotations_and_form_fields_pack_their_lists() {
    let annotation = DocumentAnnotation {
        subtype: "Link".to_string(),
        contents: None,
        created: None,
        modified: None,
        title: Some("t".to_string()),
        rect: Some(rect(1.0, 1.0, 2.0, 2.0)),
        quadpoint_rects: vec![rect(0.0, 0.0, 1.0, 1.0), rect(1.0, 1.0, 1.0, 1.0)],
        uri: Some("https://example.com".to_string()),
    };
    let field = FormField {
        id: "f1".to_string(),
        field_type: "choice".to_string(),
        page: 1,
        annotation_index: 0,
        widget_index: 0,
        object_number: Some(7),
        name: Some("colour".to_string()),
        alternate_name: None,
        value: Some("red".to_string()),
        export_value: None,
        field_flags: 0,
        control_count: None,
        control_index: None,
        checked: Some(true),
        rect: None,
        options: vec!["red".to_string(), "green".to_string()],
        selected_options: vec!["red".to_string()],
    };
    let mut p = page(1);
    p.annotations = Some(vec![annotation]);
    p.form_fields = Some(vec![field]);
    let mut packed = Packed::new();
    packed.push_page(&p);
    let rec = packed.pages[0];
    assert_eq!((rec.annotation_offset, rec.annotation_count), (0, 1));
    let a = packed.annotations[0];
    assert_eq!((a.quadpoint_offset, a.quadpoint_count), (0, 2));
    assert_eq!(text(&packed, a.uri), "https://example.com");
    assert_eq!(a.contents, LiteParseStr { offset: 0, len: 0 });
    let f = packed.form_fields[0];
    assert_eq!((f.option_offset, f.option_count), (0, 2));
    assert_eq!((f.selected_option_offset, f.selected_option_count), (2, 1));
    assert_eq!(text(&packed, packed.strings[1]), "green");
    assert_eq!(text(&packed, f.name), "colour");
    assert_eq!(f.object_number, 7);
    let back = copy_page(&rec, "pages[0]", &arrays(&packed)).unwrap_or_else(|e| panic!("{}", e.message));
    let fields = back.form_fields.unwrap();
    assert_eq!(fields[0].options, vec!["red".to_string(), "green".to_string()]);
    assert_eq!(fields[0].checked, Some(true));
    let annotations = back.annotations.unwrap();
    assert_eq!(annotations[0].quadpoint_rects.len(), 2);
    assert_eq!(annotations[0].uri.as_deref(), Some("https://example.com"));
}

#[test]
fn blocks_pack_cells_rows_and_lines() {
    let cell = |t: &str| LayoutCell { text: t.to_string(), bbox: None, colspan: Some(2), rowspan: None };
    let table = LayoutBlock {
        kind: "table".to_string(),
        text: None,
        marker: None,
        lang: None,
        id: None,
        format: None,
        bbox: None,
        level: None,
        bold: false,
        italic: false,
        ordered: None,
        header: Some(vec![cell("a"), cell("b")]),
        rows: Some(vec![vec![cell("1"), cell("2")], vec![cell("3")]]),
        lines: None,
        header_rows: Some(1),
    };
    let code = LayoutBlock {
        kind: "sidebar".to_string(),
        text: None,
        marker: None,
        lang: Some("rust".to_string()),
        id: None,
        format: None,
        bbox: None,
        level: Some(2),
        bold: true,
        italic: false,
        ordered: Some(true),
        header: None,
        rows: None,
        lines: Some(vec!["fn main() {}".to_string()]),
        header_rows: None,
    };
    let mut p = page(1);
    p.blocks = Some(vec![table, code]);
    let mut packed = Packed::new();
    packed.push_page(&p);
    assert_eq!(packed.blocks.len(), 2);
    let t = packed.blocks[0];
    assert_eq!(t.kind, 4);
    assert_eq!((t.header_cell_offset, t.header_cell_count), (0, 2));
    assert_eq!((t.row_offset, t.row_count), (0, 2));
    assert_eq!(t.header_rows, 1);
    assert_eq!((packed.rows[0].cell_offset, packed.rows[0].cell_count), (2, 2));
    assert_eq!((packed.rows[1].cell_offset, packed.rows[1].cell_count), (4, 1));
    assert_eq!(packed.cells[0].colspan, 2);
    assert_eq!(text(&packed, packed.cells[4].text), "3");
    let c = packed.blocks[1];
    assert_eq!(c.kind, 9);
    assert_eq!(c.level, 2);
    assert_eq!((c.line_offset, c.line_count), (0, 1));
    assert_eq!(text(&packed, packed.strings[0]), "fn main() {}");
    assert_eq!(text(&packed, c.lang), "rust");
}

#[test]
fn vectors_figures_frames_lines_and_regions_pack() {
    let mut p = page(1);
    p.vector_graphics = Some(VectorGraphics {
        shapes: vec![VectorShape {
            bbox: rect(0.0, 0.0, 5.0, 5.0),
            stroke: true,
            stroke_color: Some("ff00ff00".to_string()),
            fill: false,
            fill_color: None,
            has_curve: true,
        }],
        lines: vec![VectorLine {
            x1: 0,
            y1: 0,
            x2: bits(1.0),
            y2: bits(1.0),
            stroke: true,
            stroke_width: Some(bits(2.0)),
            stroke_color: None,
            fill: false,
            fill_color: None,
        }],
    });
    p.item_frames = vec![(rect(0.0, 0.0, 1.0, 1.0), rect(2.0, 2.0, 1.0, 1.0))];
    p.projected_lines = vec![ProjectedTextLine {
        text: "Hello".to_string(),
        dominant_font_name: Some("Times".to_string()),
        bbox: rect(0.0, 0.0, 10.0, 10.0),
        indent_x: 0,
        dominant_font_size: bits(11.0),
        heading_font_size: None,
        mcid: Some(3),
        anchor: Anchor::Center,
        all_bold: true,
        all_italic: false,
        all_mono: false,
        all_strike: false,
        font_size_is_estimated: false,
        rtl: false,
        in_figure: false,
        region_path: vec![0, 1],
        spans: vec![item("Hel", 0.0), item("lo", 0.0)],
    }];
    p.regions = Some(Region {
        bbox: rect(0.0, 0.0, 612.0, 792.0),
        kind: RegionKind::Split {
            axis: CutAxis::Horizontal,
            children: vec![
                Region { bbox: rect(0.0, 0.0, 612.0, 396.0), kind: RegionKind::Leaf { item_indices: vec![0] } },
                Region { bbox: rect(0.0, 396.0, 612.0, 396.0), kind: RegionKind::Leaf { item_indices: vec![] } },
            ],
        },
    });
    p.geometry = Some((
        LiteParsePageGeometry {
            box_left: 0,
            box_bottom: 0,
            box_right: bits(612.0),
            box_top: bits(792.0),
            user_unit: bits(1.0),
            rotation_quarter_turns: 1,
        },
        true,
    ));
    let mut packed = Packed::new();
    packed.push_page(&p);
    let rec = packed.pages[0];
    assert_ne!(rec.flags & LITEPARSE_PAGE_FLAG_HAS_VECTOR_GRAPHICS, 0);
    assert_ne!(rec.flags & LITEPARSE_PAGE_FLAG_HAS_GEOMETRY, 0);
    assert_ne!(rec.flags & LITEPARSE_PAGE_FLAG_HAS_ROTATION, 0);
    assert_eq!(rec.geometry.rotation_quarter_turns, 1);
    assert_eq!(packed.vector_shapes[0].flags, 1 | 4 | 16);
    assert_eq!(packed.vector_lines[0].flags, 1 | 32);
    assert_eq!(packed.item_frames[0].original, rect(2.0, 2.0, 1.0, 1.0));
    let line = packed.projected_lines[0];
    assert_eq!((line.span_offset, line.span_count), (0, 2));
    assert_eq!((line.region_path_offset, line.region_path_count), (0, 2));
    assert_eq!(line.anchor, 2);
    assert_eq!(line.flags, LITEPARSE_LINE_FLAG_HAS_MCID | LITEPARSE_LINE_FLAG_ALL_BOLD);
    assert_eq!(text(&packed, line.dominant_font_name), "Times");
    assert_eq!(text(&packed, packed.projected_spans[1].text), "lo");
    assert_eq!((rec.region_offset, rec.region_count), (0, 3));
    let regions = &packed.regions.regions;
    assert_eq!(regions[0].parent_index, LITEPARSE_NO_PARENT);
    assert_eq!((regions[1].parent_index, regions[2].parent_index), (0, 0));
    let root = &regions[0];
    assert_eq!(
        &packed.regions.region_children[root.child_offset as usize..][..root.child_count as usize],
        &[1, 2]
    );
}

#[test]
fn image_refs_pool_their_id_and_format() {
    let mut p = page(1);
    p.image_refs = vec![ImageRef {
        id: "img1".to_string(),
        bbox: rect(0.0, 0.0, 2.0, 2.0),
        obj_index: 5,
        format: "jpeg".to_string(),
        pixel_width: 10,
        pixel_height: 20,
        rotation: 0,
        jpeg_bytes: None,
        raw_bytes: None,
        bits_per_pixel: 24,
        colorspace: 1,
    }];
    let mut packed = Packed::new();
    packed.push_page(&p);
    let m = packed.image_refs[0];
    assert_eq!(text(&packed, m.id), "img1");
    assert_eq!(text(&packed, m.format), "jpeg");
    assert_eq!((m.obj_index, m.pixel_width, m.pixel_height), (5, 10, 20));
}
