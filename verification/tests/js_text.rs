use liteparse_c::js_text::JsTextItem;
use liteparse_c::page::{TextItem, WordBox};
use liteparse_c::projected::TextMetadata;

fn b(v: f32) -> u32 {
    v.to_bits()
}

fn item() -> TextItem {
    TextItem {
        text: "A".to_string(),
        x: 0,
        y: 0,
        width: 0,
        height: 0,
        rotation: 0,
        font_name: None,
        font_size: None,
        font_height: Some(b(12.0)),
        font_ascent: Some(b(9.0)),
        font_descent: Some(b(-3.0)),
        font_weight: Some(700),
        font_flags: None,
        text_width: Some(b(8.0)),
        font_is_buggy: true,
        has_unicode_map_error: false,
        mcid: Some(2),
        fill_color: Some("ff112233".to_string()),
        stroke_color: Some("ff445566".to_string()),
        char_codes: vec![65, 32],
        trailing_space_generated: true,
        confidence: None,
        link: None,
        strike: false,
        words: vec![],
    }
}

#[test]
fn text_metadata_round_trips_through_napi_type() {
    let item = item();

    let js = JsTextItem::from_rust(&item);
    assert_eq!(js.char_codes, Some(vec![65, 32]));
    assert_eq!(js.trailing_space_generated, Some(true));
    assert_eq!(js.fill_color.as_deref(), Some("ff112233"));

    let lightweight = JsTextItem::from_rust_for_output(&item, &TextMetadata::none());
    assert_eq!(lightweight.font_height, None);
    assert_eq!(lightweight.font_is_buggy, None);
    assert_eq!(lightweight.char_codes, None);
    assert_eq!(lightweight.trailing_space_generated, None);

    let round_trip = js.to_rust();
    assert_eq!(round_trip.font_height, Some(b(12.0)));
    assert_eq!(round_trip.font_ascent, Some(b(9.0)));
    assert_eq!(round_trip.font_descent, Some(b(-3.0)));
    assert_eq!(round_trip.font_weight, Some(700));
    assert_eq!(round_trip.text_width, Some(b(8.0)));
    assert!(round_trip.font_is_buggy);
    assert_eq!(round_trip.mcid, Some(2));
    assert_eq!(round_trip.stroke_color.as_deref(), Some("ff445566"));
    assert_eq!(round_trip.char_codes, vec![65, 32]);
    assert!(round_trip.trailing_space_generated);
}

#[test]
fn an_item_without_metadata_reads_back_with_defaults() {
    let mut it = item();
    it.words = vec![WordBox { text: "A".to_string(), x: 1, y: 2, width: 3, height: 4 }];
    it.rotation = b(90.0);
    it.link = Some("https://example.com".to_string());
    let js = JsTextItem::from_rust(&it);
    assert_eq!(js.rotation, Some(b(90.0)));
    assert_eq!(js.words.len(), 1);
    assert_eq!((js.words[0].x, js.words[0].height), (1, 4));
    let mut bare = JsTextItem::from_rust(&it);
    bare.rotation = None;
    bare.font_is_buggy = None;
    bare.char_codes = None;
    bare.trailing_space_generated = None;
    let back = bare.to_rust();
    assert_eq!(back.rotation, 0);
    assert!(!back.font_is_buggy);
    assert!(back.char_codes.is_empty());
    assert!(!back.trailing_space_generated);
    assert!(back.words.is_empty());
    assert!(back.link.is_none());
}
