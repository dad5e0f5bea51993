use liteparse_c::check::RawView;
use liteparse_c::config::{
    owned_config, ImageMode, LiteParsePageOrientationCorrection, OutputFormat, ParserConfig, RawConfig,
    LITEPARSE_CONFIG_FLAG_HAS_CROP_BOX, LITEPARSE_FLAG_EXTRACT_BLOCKS, LITEPARSE_FLAG_OCR_ENABLED, LITEPARSE_FLAG_QUIET,
    LITEPARSE_UNSET,
};
use liteparse_c::status::{LITEPARSE_STATUS_INVALID_ARGUMENT, LITEPARSE_STATUS_INVALID_CONFIG};

const SIZE: usize = 200;

fn defaults() -> ParserConfig {
    ParserConfig {
        switches: 0,
        max_pages: 1000,
        num_workers: 4,
        dpi: 150.0f32.to_bits(),
        output_format: OutputFormat::Text,
        image_mode: ImageMode::Placeholder,
        crop_box: None,
        ocr_language: "eng".to_string(),
        ocr_server_url: None,
        tessdata_path: None,
        password: None,
        image_output_dir: None,
        ocr_server_headers: Vec::new(),
        ocr_hedge_delays_ms: Vec::new(),
    }
}

fn raw() -> RawConfig<'static> {
    RawConfig {
        size_of_config: SIZE,
        bools_set: 0,
        bools_values: 0,
        max_pages: 0,
        num_workers: 0,
        dpi: 0,
        output_format: LITEPARSE_UNSET,
        image_mode: LITEPARSE_UNSET,
        crop_box: [0; 4],
        flags: 0,
        ocr_language: RawView::Null { len: 0 },
        ocr_server_url: RawView::Null { len: 0 },
        tessdata_path: RawView::Null { len: 0 },
        password: RawView::Null { len: 0 },
        image_output_dir: RawView::Null { len: 0 },
        ocr_server_headers: Vec::new(),
        ocr_hedge_delays_ms: Vec::new(),
        font_db_dir: RawView::Null { len: 0 },
        orientation_corrections: Vec::new(),
    }
}

fn rejected(r: RawConfig<'static>, crop_ok: bool) -> (u32, String) {
    match owned_config(&r, SIZE, defaults(), crop_ok) {
        Ok(_) => panic!("the configuration is accepted"),
        Err(e) => (e.status, e.message),
    }
}

#[test]
fn default_config_keeps_the_core_defaults() {
    let c = owned_config(&raw(), SIZE, defaults(), true).unwrap_or_else(|e| panic!("{}", e.message));
    assert_eq!(c.core.max_pages, 1000);
    assert_eq!(c.core.output_format, OutputFormat::Text);
    assert!(c.font_db_dir.is_none() && c.orientation_corrections.is_empty());
}

#[test]
fn unknown_config_flag_bits_are_rejected() {
    let mut r = raw();
    r.flags = 1 << 7;
    let (status, message) = rejected(r, true);
    assert_eq!(status, LITEPARSE_STATUS_INVALID_CONFIG);
    assert!(message.contains("unknown bits"));
}

#[test]
fn a_rejected_crop_box_is_an_invalid_config() {
    let mut r = raw();
    r.flags = LITEPARSE_CONFIG_FLAG_HAS_CROP_BOX;
    let (status, message) = rejected(r, false);
    assert_eq!(status, LITEPARSE_STATUS_INVALID_CONFIG);
    assert!(message.contains("crop_box"));
}

#[test]
fn strings_that_do_not_read_are_named() {
    let mut r = raw();
    r.font_db_dir = RawView::Bytes(&[0xff, 0xfe]);
    let (status, message) = rejected(r, true);
    assert_eq!(status, LITEPARSE_STATUS_INVALID_ARGUMENT);
    assert!(message.contains("font_db_dir") && message.contains("UTF-8"));
    let mut r = raw();
    r.font_db_dir = RawView::Null { len: 3 };
    let (status, message) = rejected(r, true);
    assert_eq!(status, LITEPARSE_STATUS_INVALID_ARGUMENT);
    assert!(message.contains("length zero"));
}

#[test]
fn orientation_corrections_must_turn_by_quarter_turns() {
    let mut r = raw();
    r.orientation_corrections = vec![
        LiteParsePageOrientationCorrection { page: 2, angle: 90 },
        LiteParsePageOrientationCorrection { page: 1, angle: 45 },
    ];
    let (status, message) = rejected(r, true);
    assert_eq!(status, LITEPARSE_STATUS_INVALID_CONFIG);
    assert!(message.contains("45") && message.contains("orientation_corrections[1]"));
    let mut r = raw();
    r.orientation_corrections = vec![LiteParsePageOrientationCorrection { page: 3, angle: 270 }];
    let c = owned_config(&r, SIZE, defaults(), true).unwrap_or_else(|e| panic!("{}", e.message));
    assert_eq!(c.orientation_corrections, vec![(3, 270)]);
}

fn js_empty() -> liteparse_c::js::JsLiteParseConfig {
    liteparse_c::js::JsLiteParseConfig {
        ocr_language: None,
        ocr_enabled: None,
        ocr_server_url: None,
        ocr_server_headers: None,
        tessdata_path: None,
        max_pages: None,
        target_pages: None,
        extract_screenshots: None,
        continue_on_page_error: None,
        dpi: None,
        output_format: None,
        preserve_very_small_text: None,
        password: None,
        quiet: None,
        num_workers: None,
        image_mode: None,
        extract_images: None,
        image_output_dir: None,
        extract_links: None,
        keep_headers_footers: None,
        extract_annotations: None,
        extract_blocks: None,
        extract_form_fields: None,
        extract_structure_tree: None,
        extract_xfa_packets: None,
        extract_document_metadata: None,
        extract_content_bounds: None,
        detect_screenshot_rects: None,
        render_form_fields: None,
        ocr_failure_fatal: None,
        ocr_hedge_delays_ms: None,
        emit_word_boxes: None,
        extract_text_metadata: None,
        crop_box: None,
        skip_diagonal_text: None,
        include_complexity: None,
        extract_vector_graphics: None,
    }
}

#[test]
fn a_javascript_config_overrides_only_what_it_gives() {
    let mut d = defaults();
    d.switches = LITEPARSE_FLAG_QUIET;
    let mut js = js_empty();
    js.output_format = Some("md".to_string());
    js.image_mode = Some("none".to_string());
    js.extract_blocks = Some(true);
    js.quiet = Some(false);
    js.max_pages = Some(5);
    js.dpi = Some(72.0f32.to_bits());
    js.ocr_hedge_delays_ms = Some(vec![0, 5000]);
    js.target_pages = Some("1-3".to_string());
    let r = js.into_rust(d);
    assert_eq!(r.core.output_format, OutputFormat::Markdown);
    assert_eq!(r.core.image_mode, ImageMode::Off);
    assert_eq!(r.core.switches, LITEPARSE_FLAG_EXTRACT_BLOCKS);
    assert_eq!(r.core.switches & LITEPARSE_FLAG_OCR_ENABLED, 0);
    assert_eq!((r.core.max_pages, r.core.num_workers), (5, 4));
    assert_eq!(r.core.dpi, 72.0f32.to_bits());
    assert_eq!(r.core.ocr_hedge_delays_ms, vec![0u64, 5000]);
    assert_eq!(r.core.ocr_language, "eng");
    assert_eq!(r.target_pages.as_deref(), Some("1-3"));
    let mut js = js_empty();
    js.output_format = Some("yaml".to_string());
    js.image_mode = Some("embed".to_string());
    let r = js.into_rust(defaults());
    assert_eq!(r.core.output_format, OutputFormat::Json);
    assert_eq!(r.core.image_mode, ImageMode::Embed);
}

#[test]
fn text_metadata_config_defaults_off_and_round_trips() {
    let mut js = liteparse_c::js::JsLiteParseConfig::from_rust(&liteparse_c::js::JsParserConfig {
        core: defaults(),
        target_pages: None,
    });
    assert_eq!(js.extract_text_metadata, Some(false));
    js.extract_text_metadata = Some(true);
    assert_ne!(
        js.into_rust(defaults()).core.switches & liteparse_c::config::LITEPARSE_FLAG_EXTRACT_TEXT_METADATA,
        0
    );
}

#[test]
fn a_core_config_reads_back_through_javascript() {
    let mut core = defaults();
    core.switches = LITEPARSE_FLAG_QUIET | LITEPARSE_FLAG_EXTRACT_BLOCKS;
    core.ocr_hedge_delays_ms = vec![10, 1 << 40];
    core.output_format = OutputFormat::Markdown;
    let js = liteparse_c::js::JsLiteParseConfig::from_rust(&liteparse_c::js::JsParserConfig {
        core,
        target_pages: Some("2".to_string()),
    });
    assert_eq!(js.quiet, Some(true));
    assert_eq!(js.ocr_enabled, Some(false));
    assert_eq!(js.output_format.as_deref(), Some("markdown"));
    assert_eq!(js.image_mode.as_deref(), Some("placeholder"));
    assert_eq!(js.ocr_hedge_delays_ms, Some(vec![10, u32::MAX]));
    assert!(js.ocr_server_headers.is_none());
    assert_eq!(js.max_pages, Some(1000));
    let back = js.into_rust(defaults());
    assert_eq!(back.core.switches, LITEPARSE_FLAG_QUIET | LITEPARSE_FLAG_EXTRACT_BLOCKS);
    assert_eq!(back.core.output_format, OutputFormat::Markdown);
    assert_eq!(back.target_pages.as_deref(), Some("2"));
}
