use liteparse_c::check::LiteParseRect;
use liteparse_c::content::{BlockArrays, Block};
use liteparse_c::content_in::copy_blocks;
use liteparse_c::pack::{LayoutBlock, LayoutCell, Packed, PageParts, PlacedGraphic};
use liteparse_c::page::{
    copy_page, AttributeValue, ContentArrays, DocumentAnnotation, FormField, GraphicPrimitive,
    ImageRef, StructNode, StructureContent, StructureTree, TextItem, VectorGraphics, VectorLine,
    VectorShape,
};
use liteparse_c::structure::StructureElement;

fn bits(v: f32) -> u32 {
    v.to_bits()
}

fn rect(x: f32, y: f32, w: f32, h: f32) -> LiteParseRect {
    LiteParseRect { x: bits(x), y: bits(y), width: bits(w), height: bits(h) }
}

fn page(number: usize) -> PageParts {
    PageParts {
        page_number: number,
        page_label: None,
        width: bits(612.0),
        height: bits(792.0),
        content_bounds: None,
        text: String::new(),
        markdown: String::new(),
        text_items: Vec::new(),
        graphics: Vec::new(),
        vector_graphics: None,
        struct_nodes: Vec::new(),
        image_refs: Vec::new(),
        annotations: None,
        form_fields: None,
        structure_tree: None,
        blocks: None,
        complexity: None,
        figures: Vec::new(),
        item_frames: Vec::new(),
        projected_lines: Vec::new(),
        regions: None,
        geometry: None,
    }
}

fn item(t: &str) -> TextItem {
    TextItem {
        text: t.to_string(),
        x: bits(72.0),
        y: bits(100.0),
        width: bits(80.0),
        height: bits(12.0),
        rotation: 0,
        font_name: None,
        font_size: None,
        font_height: None,
        font_ascent: None,
        font_descent: None,
        font_weight: None,
        font_flags: None,
        text_width: None,
        font_is_buggy: false,
        has_unicode_map_error: false,
        mcid: None,
        fill_color: None,
        stroke_color: None,
        char_codes: Vec::new(),
        trailing_space_generated: false,
        confidence: None,
        link: None,
        strike: false,
        words: Vec::new(),
    }
}

fn arrays(packed: &Packed) -> ContentArrays<'_> {
    ContentArrays {
        pool: packed.pool.as_bytes(),
        items: &packed.items,
        words: &packed.words,
        char_codes: &packed.char_codes,
        graphics: &packed.graphics,
        struct_nodes: &packed.struct_nodes,
        mcids: &packed.mcids,
        image_refs: &packed.image_refs,
        annotations: &packed.annotations,
        quadpoints: &packed.quadpoints,
        form_fields: &packed.form_fields,
        strings: &packed.strings,
        structure_nodes: &packed.structure_nodes,
        structure_attributes: &packed.structure_attributes,
        vector_shapes: &packed.vector_shapes,
        vector_lines: &packed.vector_lines,
    }
}

fn element(node: u32, children: Vec<StructureElement<u32>>) -> StructureElement<u32> {
    StructureElement { node, children }
}

fn content(kind: &str) -> StructureContent {
    StructureContent {
        element_type: kind.to_string(),
        id: None,
        actual_text: None,
        alt_text: None,
        title: None,
        attributes: Vec::new(),
        marked_content_ids: Vec::new(),
        annotations: Vec::new(),
    }
}

fn annotation() -> DocumentAnnotation {
    DocumentAnnotation {
        subtype: "Link".to_string(),
        contents: Some("see".to_string()),
        created: None,
        modified: Some("D:2024".to_string()),
        title: None,
        rect: Some(rect(1.0, 1.0, 2.0, 2.0)),
        quadpoint_rects: vec![rect(0.0, 0.0, 1.0, 1.0)],
        uri: Some("https://example.com".to_string()),
    }
}

fn field() -> FormField {
    FormField {
        id: "f1".to_string(),
        field_type: "choice".to_string(),
        page: 2,
        annotation_index: 3,
        widget_index: 1,
        object_number: None,
        name: Some("colour".to_string()),
        alternate_name: Some("Colour".to_string()),
        value: None,
        export_value: Some("yes".to_string()),
        field_flags: 9,
        control_count: Some(2),
        control_index: None,
        checked: Some(false),
        rect: Some(rect(3.0, 4.0, 5.0, 6.0)),
        options: vec!["red".to_string(), String::new()],
        selected_options: vec!["red".to_string()],
    }
}

fn rich_page() -> PageParts {
    let mut p = page(2);
    p.page_label = Some("ii".to_string());
    p.content_bounds = Some(rect(10.0, 20.0, 500.0, 700.0));
    p.text_items = vec![item("Hello")];
    p.graphics = vec![
        PlacedGraphic {
            primitive: GraphicPrimitive::Stroke {
                x1: bits(1.0),
                y1: bits(2.0),
                x2: bits(3.0),
                y2: bits(4.0),
                color: Some("ff000000".to_string()),
                width: bits(0.5),
            },
            bounds: rect(1.0, 2.0, 2.0, 2.0),
        },
        PlacedGraphic {
            primitive: GraphicPrimitive::Rect {
                bbox: rect(5.0, 6.0, 7.0, 8.0),
                fill: None,
                stroke: Some("80ff00ff".to_string()),
            },
            bounds: rect(5.0, 6.0, 7.0, 8.0),
        },
    ];
    p.struct_nodes = vec![StructNode {
        role: "Figure".to_string(),
        mcids: vec![3, 4],
        bbox: None,
        alt_text: Some("a chart".to_string()),
    }];
    p.image_refs = vec![ImageRef {
        id: "img1".to_string(),
        bbox: rect(0.0, 0.0, 2.0, 2.0),
        obj_index: 5,
        format: "png".to_string(),
        pixel_width: 10,
        pixel_height: 20,
        rotation: bits(90.0),
        jpeg_bytes: None,
        raw_bytes: None,
        bits_per_pixel: 24,
        colorspace: 1,
    }];
    p.annotations = Some(vec![annotation()]);
    p.form_fields = Some(vec![field()]);
    p.vector_graphics = Some(VectorGraphics {
        shapes: vec![VectorShape {
            bbox: rect(0.0, 0.0, 3.0, 3.0),
            stroke: true,
            stroke_color: Some("ff112233".to_string()),
            fill: false,
            fill_color: None,
            has_curve: true,
        }],
        lines: vec![VectorLine {
            x1: bits(0.0),
            y1: bits(1.0),
            x2: bits(2.0),
            y2: bits(3.0),
            stroke: true,
            stroke_width: Some(bits(1.5)),
            stroke_color: None,
            fill: true,
            fill_color: Some("ffabcdef".to_string()),
        }],
    });
    p
}

#[test]
fn every_part_of_a_packed_page_reads_back() {
    let mut packed = Packed::new();
    packed.push_page(&page(1));
    packed.push_page(&rich_page());
    packed.push_page(&page(3));
    let back = copy_page(&packed.pages[1], "pages[1]", &arrays(&packed))
        .unwrap_or_else(|e| panic!("{}", e.message));
    assert_eq!(back.page_number, 2);
    assert_eq!(back.page_label.as_deref(), Some("ii"));
    assert_eq!((back.page_width, back.page_height), (bits(612.0), bits(792.0)));
    assert_eq!(back.content_bounds, Some(rect(10.0, 20.0, 500.0, 700.0)));
    assert_eq!(back.text_items.len(), 1);
    assert_eq!(back.text_items[0].text, "Hello");
    assert_eq!(back.graphics.len(), 2);
    match &back.graphics[0] {
        GraphicPrimitive::Stroke { x1, y1, x2, y2, color, width } => {
            assert_eq!((*x1, *y1, *x2, *y2, *width), (bits(1.0), bits(2.0), bits(3.0), bits(4.0), bits(0.5)));
            assert_eq!(color.as_deref(), Some("ff000000"));
        }
        _ => panic!("the first graphic is a stroke"),
    }
    match &back.graphics[1] {
        GraphicPrimitive::Rect { bbox, fill, stroke } => {
            assert_eq!(*bbox, rect(5.0, 6.0, 7.0, 8.0));
            assert!(fill.is_none());
            assert_eq!(stroke.as_deref(), Some("80ff00ff"));
        }
        _ => panic!("the second graphic is a rect"),
    }
    let node = &back.struct_nodes[0];
    assert_eq!((node.role.as_str(), node.mcids.clone(), node.bbox), ("Figure", vec![3, 4], None));
    assert_eq!(node.alt_text.as_deref(), Some("a chart"));
    let image = &back.image_refs[0];
    assert_eq!((image.id.as_str(), image.format.as_str()), ("img1", "png"));
    assert_eq!((image.obj_index, image.pixel_width, image.pixel_height), (5, 10, 20));
    assert_eq!((image.rotation, image.bits_per_pixel, image.colorspace), (bits(90.0), 24, 1));
    let annotations = back.annotations.expect("the page has annotations");
    let a = &annotations[0];
    assert_eq!(a.subtype, "Link");
    assert_eq!(a.contents.as_deref(), Some("see"));
    assert!(a.created.is_none() && a.title.is_none());
    assert_eq!(a.modified.as_deref(), Some("D:2024"));
    assert_eq!(a.rect, Some(rect(1.0, 1.0, 2.0, 2.0)));
    assert_eq!(a.quadpoint_rects, vec![rect(0.0, 0.0, 1.0, 1.0)]);
    assert_eq!(a.uri.as_deref(), Some("https://example.com"));
    let fields = back.form_fields.expect("the page has form fields");
    let f = &fields[0];
    assert_eq!((f.id.as_str(), f.field_type.as_str()), ("f1", "choice"));
    assert_eq!((f.page, f.annotation_index, f.widget_index, f.field_flags), (2, 3, 1, 9));
    assert_eq!((f.object_number, f.control_count, f.control_index), (None, Some(2), None));
    assert_eq!(f.name.as_deref(), Some("colour"));
    assert_eq!(f.alternate_name.as_deref(), Some("Colour"));
    assert!(f.value.is_none());
    assert_eq!(f.export_value.as_deref(), Some("yes"));
    assert_eq!(f.checked, Some(false));
    assert_eq!(f.rect, Some(rect(3.0, 4.0, 5.0, 6.0)));
    assert_eq!(f.options, vec!["red".to_string(), String::new()]);
    assert_eq!(f.selected_options, vec!["red".to_string()]);
    let vectors = back.vector_graphics.expect("the page has vector graphics");
    let shape = &vectors.shapes[0];
    assert_eq!(shape.bbox, rect(0.0, 0.0, 3.0, 3.0));
    assert!(shape.stroke && !shape.fill && shape.has_curve);
    assert_eq!(shape.stroke_color.as_deref(), Some("ff112233"));
    assert!(shape.fill_color.is_none());
    let line = &vectors.lines[0];
    assert_eq!((line.x1, line.y1, line.x2, line.y2), (bits(0.0), bits(1.0), bits(2.0), bits(3.0)));
    assert!(line.stroke && line.fill);
    assert_eq!(line.stroke_width, Some(bits(1.5)));
    assert!(line.stroke_color.is_none());
    assert_eq!(line.fill_color.as_deref(), Some("ffabcdef"));
    assert!(back.structure_tree.is_none());
}

#[test]
fn a_structure_tree_reads_back_in_pre_order() {
    let mut table = content("Table");
    table.id = Some("t1".to_string());
    table.attributes = vec![
        ("Summary".to_string(), AttributeValue::Boolean(true)),
        ("Open".to_string(), AttributeValue::Boolean(false)),
        ("Width".to_string(), AttributeValue::Number(bits(2.5))),
        ("Scope".to_string(), AttributeValue::String("Row".to_string())),
    ];
    table.marked_content_ids = vec![7, 8];
    table.annotations = vec![annotation()];
    let mut caption = content("Caption");
    caption.actual_text = Some("Figures".to_string());
    let mut p = page(1);
    // Elements name contents out of pre-order: the reader numbers them in
    // pre-order and lists the contents that way.
    p.structure_tree = Some(StructureTree {
        roots: vec![element(2, vec![element(0, Vec::new())]), element(1, Vec::new())],
        contents: vec![table, caption, content("Document")],
    });
    let mut packed = Packed::new();
    packed.push_page(&page(9));
    packed.push_page(&p);
    let back = copy_page(&packed.pages[1], "pages[1]", &arrays(&packed))
        .unwrap_or_else(|e| panic!("{}", e.message));
    let tree = back.structure_tree.expect("the page has a structure tree");
    let kinds: Vec<&str> = tree.contents.iter().map(|c| c.element_type.as_str()).collect();
    assert_eq!(kinds, vec!["Document", "Table", "Caption"]);
    assert_eq!(tree.roots.len(), 2);
    assert_eq!(tree.roots[0].node, 0);
    assert_eq!(tree.roots[0].children.len(), 1);
    assert_eq!(tree.roots[0].children[0].node, 1);
    assert!(tree.roots[0].children[0].children.is_empty());
    assert_eq!(tree.roots[1].node, 2);
    assert!(tree.roots[1].children.is_empty());
    let t = &tree.contents[1];
    assert_eq!(t.id.as_deref(), Some("t1"));
    assert_eq!(t.marked_content_ids, vec![7, 8]);
    assert_eq!(t.attributes.len(), 4);
    assert_eq!(t.attributes[0].0, "Summary");
    assert!(matches!(t.attributes[0].1, AttributeValue::Boolean(true)));
    assert!(matches!(t.attributes[1].1, AttributeValue::Boolean(false)));
    assert!(matches!(t.attributes[2].1, AttributeValue::Number(n) if n == bits(2.5)));
    assert!(matches!(&t.attributes[3].1, AttributeValue::String(s) if s == "Row"));
    assert_eq!(t.annotations.len(), 1);
    assert_eq!(t.annotations[0].uri.as_deref(), Some("https://example.com"));
    assert_eq!(tree.contents[2].actual_text.as_deref(), Some("Figures"));
}

#[test]
fn empty_optional_strings_read_back_as_absent() {
    let mut p = page(1);
    p.page_label = Some(String::new());
    let mut it = item("x");
    it.font_name = Some(String::new());
    p.text_items = vec![it];
    let mut packed = Packed::new();
    packed.push_page(&p);
    let back = copy_page(&packed.pages[0], "pages[0]", &arrays(&packed))
        .unwrap_or_else(|e| panic!("{}", e.message));
    assert!(back.page_label.is_none());
    assert!(back.text_items[0].font_name.is_none());
}

#[test]
fn colours_read_back_in_lowercase() {
    let mut p = page(1);
    p.graphics = vec![PlacedGraphic {
        primitive: GraphicPrimitive::Rect { bbox: rect(0.0, 0.0, 1.0, 1.0), fill: Some("FFAA00BB".to_string()), stroke: None },
        bounds: rect(0.0, 0.0, 1.0, 1.0),
    }];
    let mut packed = Packed::new();
    packed.push_page(&p);
    let back = copy_page(&packed.pages[0], "pages[0]", &arrays(&packed))
        .unwrap_or_else(|e| panic!("{}", e.message));
    match &back.graphics[0] {
        GraphicPrimitive::Rect { fill, .. } => assert_eq!(fill.as_deref(), Some("ffaa00bb")),
        _ => panic!("the graphic is a rect"),
    }
}

fn block(kind: &str) -> LayoutBlock {
    LayoutBlock {
        kind: kind.to_string(),
        text: None,
        marker: None,
        lang: None,
        id: None,
        format: None,
        bbox: None,
        level: None,
        bold: false,
        italic: false,
        ordered: None,
        header: None,
        rows: None,
        lines: None,
        header_rows: None,
    }
}

#[test]
fn packed_blocks_read_back_as_the_blocks_they_describe() {
    let cell = |t: &str, span: Option<u16>| LayoutCell { text: t.to_string(), bbox: None, colspan: span, rowspan: None };
    let mut heading = block("heading");
    heading.text = Some("Title".to_string());
    heading.bbox = Some(rect(1.0, 2.0, 3.0, 4.0));
    let mut table = block("table");
    table.header = Some(vec![cell("a", None), cell("b", None)]);
    table.rows = Some(vec![vec![cell("1", None), cell("2", None)]]);
    let mut merged = block("merged_table");
    merged.rows = Some(vec![vec![cell("wide", Some(2))], vec![cell("x", None)]]);
    merged.header_rows = Some(1);
    let mut code = block("code");
    code.lines = Some(vec!["let x = 1;".to_string()]);
    code.lang = Some("rust".to_string());
    let mut item = block("list_item");
    item.marker = Some("-".to_string());
    item.level = Some(2);
    item.ordered = Some(false);
    item.text = Some("point".to_string());
    item.bold = true;
    let mut p = page(1);
    p.blocks = Some(vec![heading, table, merged, code, item]);
    let mut packed = Packed::new();
    packed.push_page(&page(1));
    packed.push_page(&p);
    let rec = packed.pages[1];
    let arrays = BlockArrays {
        pool: packed.pool.as_bytes(),
        strings: &packed.strings,
        cells: &packed.cells,
        rows: &packed.rows,
    };
    let back = copy_blocks(&arrays, &packed.blocks, rec.block_offset, rec.block_count)
        .unwrap_or_else(|e| panic!("{}", e.message));
    assert_eq!(back.len(), 5);
    assert_eq!(back[0].bbox, Some(rect(1.0, 2.0, 3.0, 4.0)));
    assert!(matches!(&back[0].block, Block::Heading { level: 1, text } if text == "Title"));
    match &back[1].block {
        Block::Table { header, rows } => {
            let h = header.as_ref().expect("the table has a header");
            assert_eq!(h.iter().map(|c| c.text.as_str()).collect::<Vec<_>>(), vec!["a", "b"]);
            assert_eq!(rows.len(), 1);
            assert_eq!(rows[0].iter().map(|c| c.text.as_str()).collect::<Vec<_>>(), vec!["1", "2"]);
        }
        _ => panic!("the second block is a table"),
    }
    match &back[2].block {
        Block::MergedTable { rows, header_rows } => {
            assert_eq!(*header_rows, 1);
            assert_eq!(rows.len(), 2);
            assert_eq!((rows[0][0].text.as_str(), rows[0][0].colspan, rows[0][0].rowspan), ("wide", 2, 0));
            assert_eq!(rows[1][0].text, "x");
        }
        _ => panic!("the third block is a merged table"),
    }
    match &back[3].block {
        Block::CodeBlock { lines, lang } => {
            assert_eq!(lines, &vec!["let x = 1;".to_string()]);
            assert_eq!(lang.as_deref(), Some("rust"));
        }
        _ => panic!("the fourth block is code"),
    }
    match &back[4].block {
        Block::ListItem { ordered, marker, level, text, bold, italic } => {
            assert!(!*ordered && *bold && !*italic);
            assert_eq!((marker.as_str(), *level, text.as_str()), ("-", 2, "point"));
        }
        _ => panic!("the fifth block is a list item"),
    }
}
