use liteparse_c::color::{argb_from_hex, hex_from_argb};
use liteparse_c::flags::{reason_mask, reasons_from_mask, ComplexityReason};

#[test]
fn reasons_read_back_in_table_order() {
    let mask = reason_mask(&[
        ComplexityReason::AnnotationText,
        ComplexityReason::Scanned,
        ComplexityReason::Garbled,
        ComplexityReason::Scanned,
    ]);
    assert_eq!(mask, 1 | 16 | 64);
    assert_eq!(
        reasons_from_mask(mask | 0x8000),
        vec![ComplexityReason::Scanned, ComplexityReason::Garbled, ComplexityReason::AnnotationText]
    );
}

#[test]
fn mixed_case_colours_spell_back_lowercase() {
    let read = argb_from_hex("FfA0c3E9").unwrap();
    assert_eq!(read, 0xffa0_c3e9);
    assert_eq!(hex_from_argb(read), "ffa0c3e9");
}
