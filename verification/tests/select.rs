use liteparse_c::raster::{region_ok, render_dpi};
use liteparse_c::select::{
    on_page_failure, page_numbers, pages_to_visit, selection, PageFailure, MAX_SELECTED_PAGES,
};
use liteparse_c::status::{LITEPARSE_STATUS_INVALID_ARGUMENT, LITEPARSE_STATUS_PARSE_ERROR};

#[test]
fn selections_are_sorted_and_deduplicated() {
    let got = selection(5, Some(vec![3, 1, 3, 5, 1])).unwrap();
    assert_eq!(got, Some(vec![1, 3, 5]));
    assert_eq!(selection(5, None).unwrap(), None);
}

#[test]
fn selection_rejects_the_first_page_outside_the_document() {
    let e = selection(4, Some(vec![2, 0, 9])).unwrap_err();
    assert_eq!(e.status, LITEPARSE_STATUS_INVALID_ARGUMENT);
    assert_eq!(e.message, "page 0 is out of range (document has 4 pages)");
    let e = selection(4, Some(vec![1, 5])).unwrap_err();
    assert_eq!(e.message, "page 5 is out of range (document has 4 pages)");
}

#[test]
fn selection_over_the_limit_is_refused() {
    let total = (MAX_SELECTED_PAGES + 1) as u32;
    let pages: Vec<u32> = (1..=total).collect();
    let e = selection(total, Some(pages)).unwrap_err();
    assert_eq!(
        e.message,
        "selection of 100001 pages exceeds the limit of 100000; parse in several calls"
    );
    let mut repeated = vec![7u32; MAX_SELECTED_PAGES + 5];
    repeated.push(1);
    assert_eq!(selection(total, Some(repeated)).unwrap(), Some(vec![1, 7]));
}

#[test]
fn empty_page_lists_select_every_page() {
    assert_eq!(page_numbers(Some(Vec::new())), None);
    assert_eq!(page_numbers(Some(vec![2])), Some(vec![2]));
    assert_eq!(page_numbers(None), None);
}

#[test]
fn pages_to_visit_caps_the_selection() {
    assert_eq!(pages_to_visit(None, 4, 10), vec![1, 2, 3, 4]);
    assert_eq!(pages_to_visit(None, 4, 2), vec![1, 2]);
    assert_eq!(pages_to_visit(Some(vec![9, 3]), 4, 0), Vec::<u32>::new());
    assert_eq!(pages_to_visit(Some(vec![9, 3]), 4, 5), vec![9, 3]);
}

#[test]
fn continue_on_page_error_never_swallows_argument_errors() {
    assert_eq!(on_page_failure(LITEPARSE_STATUS_PARSE_ERROR, true), PageFailure::Skip);
    assert_eq!(on_page_failure(LITEPARSE_STATUS_PARSE_ERROR, false), PageFailure::Stop);
    assert_eq!(on_page_failure(LITEPARSE_STATUS_INVALID_ARGUMENT, true), PageFailure::Stop);
}

#[test]
fn render_dpi_keeps_the_configured_value_for_zero() {
    let configured = 150f32.to_bits();
    assert_eq!(render_dpi(configured, 0f32.to_bits()).unwrap(), configured);
    assert_eq!(render_dpi(configured, (-0f32).to_bits()).unwrap(), configured);
    assert_eq!(render_dpi(configured, 300f32.to_bits()).unwrap(), 300f32.to_bits());
    let e = render_dpi(configured, (-1f32).to_bits()).unwrap_err();
    assert_eq!(
        e.message,
        "dpi_override must be finite and greater than zero; zero keeps the configured DPI"
    );
    assert!(render_dpi(configured, f32::NAN.to_bits()).is_err());
}

#[test]
fn render_regions_need_a_non_negative_origin_and_positive_size() {
    let b = |v: f32| v.to_bits();
    assert!(region_ok(b(0.0), b(0.0), b(10.0), b(10.0)));
    assert!(region_ok(b(-0.0), b(1.0), b(10.0), b(10.0)));
    assert!(!region_ok(b(-1.0), b(0.0), b(10.0), b(10.0)));
    assert!(!region_ok(b(0.0), b(0.0), b(0.0), b(10.0)));
    assert!(!region_ok(b(0.0), b(f32::INFINITY), b(1.0), b(1.0)));
}
