use liteparse_c::raster::encode_png;
use liteparse_c::status::LITEPARSE_STATUS_PARSE_ERROR;

#[test]
fn a_non_empty_raster_always_encodes() {
    let png = encode_png(&[255, 0, 0, 255, 0, 255, 0, 255], 2, 1).unwrap_or_else(|e| panic!("{}", e.message));
    assert_eq!(&png[..8], &[137, 80, 78, 71, 13, 10, 26, 10]);
}

#[test]
fn an_empty_raster_is_a_parse_error() {
    let e = encode_png(&[], 0, 3).err().expect("an empty image does not encode");
    assert_eq!(e.status, LITEPARSE_STATUS_PARSE_ERROR);
    assert!(e.message.starts_with("PNG encode error: "));
}
